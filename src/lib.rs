//! Reconciliation of a hypervisor's VMs with the VMs that a repository
//! declares: the diff engine and its laws, the plan of side effects, the
//! parsers of the VM manager's output, the command lines of the external
//! tools, the webhook search and the single-flight controller.

pub mod types;
pub mod text;
pub mod diff;
pub mod order;
pub mod inventory;
pub mod qm;
pub mod qm_config;
pub mod webhook;
pub mod controller;
pub mod reconcile;
pub mod provision;
pub mod images;
