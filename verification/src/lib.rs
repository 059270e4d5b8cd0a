//! Read-only observability for a Linux machine: the parsers, rules and
//! decisions behind four tools that report what the kernel's virtual
//! filesystems say, each with a proved contract.

pub mod cgroup;
pub mod clock;
pub mod container_health;
pub mod container_list;
pub mod discovery;
pub mod fault;
pub mod guard;
pub mod hierarchy;
pub mod identity;
pub mod number;
pub mod order;
pub mod pressure;
pub mod proc;
pub mod system_health;
pub mod system_info;
pub mod table;
pub mod target;
pub mod text;
