//! Verified core of the MOMO runtime: carriers, prompt budgeting, capability
//! governance and the request validators that sit in front of model calls.

pub mod checksum;
pub mod lsb;
pub mod image_codec;
pub mod text;
pub mod table;
pub mod bpe;
pub mod context;
pub mod capability;
pub mod gateway;
pub mod governance;
pub mod ids;
pub mod api;
pub mod memory;
pub mod character_compat;
pub mod prompt_spaces;
pub mod embedding;
pub mod paths;
pub mod control;
pub mod fonts;
pub mod json;
pub mod charx;
pub mod orchestration;
pub mod portable;
pub mod crypto;
pub mod config;
pub mod lsb_files;
pub mod local_data;
pub mod coordination;
pub mod bounded;
pub mod card_export;
