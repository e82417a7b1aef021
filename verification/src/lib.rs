//! The rules of a proxy that shows several media servers as one: library groups over servers,
//! media that several servers have, browsing and playback over all of them, and watch data that
//! follows the server of the highest priority. Reading and writing is up to the caller.
pub mod branding;
pub mod federated;
pub mod grouped_item;
pub mod grouped_playback;
pub mod ids;
pub mod items;
pub mod libraries;
pub mod library_group_rows;
pub mod library_management_service;
pub mod media_mappings;
pub mod media_storage_service;
pub mod models;
pub mod order;
pub mod query;
pub mod sessions;
pub mod show_items;
pub mod text;
pub mod watch_sync_laws;
pub mod watch_sync_service;
