pub mod fetch;
pub mod http_policy;
pub mod security;
pub mod types;
pub mod rate_limit;
pub mod section;
pub mod persistence;
pub mod util;
pub mod settings;
pub mod preprocess;
pub mod info_cache;
pub mod narou_api;
pub mod update;
pub mod target;
pub mod resolve;
pub mod download;
pub mod toc;
pub mod novel_info;
pub mod site_setting;
