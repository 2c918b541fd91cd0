//! Verified core of the Vireo mail reader's user interface: the decisions and
//! text transformations behind the message list, the reader and the galleries.

pub mod model;
pub mod text;
pub mod threads;
pub mod escape;
pub mod remote;
pub mod links;
pub mod print;
pub mod frame;
pub mod conversation;
pub mod reader;
pub mod reader_state;
pub mod list;
pub mod order;
pub mod sorting;
pub mod plan;
pub mod list_state;
pub mod list_model;
pub mod row_state;
pub mod mutf7;
pub mod gallery;
pub mod gallery_state;
pub mod accounts;
pub mod accounts_state;
pub mod compose;
pub mod compose_state;
pub mod contacts;
pub mod contacts_state;
pub mod drawer;
pub mod drawer_state;
pub mod menu;
