pub mod archive;
pub mod cli;
pub mod egov;
pub mod error;
pub mod estat;
pub mod gian;
pub mod json;
pub mod kanpo_amend;
pub mod kanpo_client;
pub mod kanpo_linker;
pub mod kokkai;
pub mod law_diff;
pub mod law_normalizer;
pub mod law_xml;
pub mod linking;
pub mod num;
pub mod procurement;
pub mod retry;
pub mod scan;
pub mod stat_dims;
pub mod text;
pub mod xml;
