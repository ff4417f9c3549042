//! Selective local development against a shared staging environment.

pub mod aws_bastion_provisioner;
pub mod aws_laws;
pub mod aws_steps;
pub mod base64;
pub mod bastion_client;
pub mod bastion_protocol;
pub mod bastion_provisioner;
pub mod commands;
pub mod common;
pub mod config;
pub mod control_laws;
pub mod down_flow;
pub mod down_laws;
pub mod file_laws;
pub mod files;
pub mod handlers;
pub mod http;
pub mod json_laws;
pub mod message_laws;
pub mod nginx;
pub mod nginx_laws;
pub mod order;
pub mod provision_laws;
pub mod registry;
pub mod report;
pub mod runner;
pub mod saved_state;
pub mod ssm;
pub mod state;
pub mod text;
pub mod text_laws;
pub mod tunnel;
pub mod up_flow;
pub mod up_laws;
pub mod wire;
