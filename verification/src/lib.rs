//! A local commander for agents: policy, approvals, audit, tenants and the
//! decisions around files, processes, browsers and desktops.

pub mod approval;
pub mod audit;
pub mod broker;
pub mod browser;
pub mod codec;
pub mod crypto;
pub mod dashboard;
pub mod desktop;
pub mod dispatch;
pub mod dispatcher;
pub mod edits;
pub mod encodings;
pub mod files;
pub mod gate;
pub mod git;
pub mod grants;
pub mod identity;
pub mod ids;
pub mod inspection;
pub mod maintenance;
pub mod passages;
pub mod paths;
pub mod policy;
pub mod preparation;
pub mod protocol;
pub mod reports;
pub mod search;
pub mod sessions;
pub mod shown;
pub mod swap;
pub mod table;
pub mod tenants;
pub mod text;
pub mod tls;
pub mod writes;
