pub mod browser;
pub mod commands;
pub mod content;
pub mod desktop;
pub mod editor;
pub mod files;
pub mod frontmatter;
pub mod history;
pub mod icons;
pub mod image_size;
pub mod importer;
pub mod keyed;
pub mod laws;
pub mod migrate;
pub mod mutations;
pub mod ordering;
pub mod paths;
pub mod presentation;
pub mod project;
pub mod project_io;
pub mod recents;
pub mod resolver;
pub mod save_queue;
pub mod schema;
pub mod server;
pub mod session;
pub mod slug;
pub mod targets;
pub mod text;
pub mod ui_state;
pub mod urls;
