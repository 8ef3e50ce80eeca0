//! A small container engine: build-file parsing, ignore rules, address
//! management and the decisions around running containers.

pub mod text;
pub mod buildfile;
pub mod rockerfile;
pub mod rustockerfile;
pub mod ipam;
pub mod ignore;
pub mod layers;
pub mod options;
pub mod container;
pub mod cgroups;
pub mod exec;
pub mod network;
pub mod paths;
pub mod builder;
pub mod init;
