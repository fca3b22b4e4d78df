//! What the desktop windows decide: the task list, the rule editor, the forms.

pub mod arrange;
pub mod cleanup;
pub mod connection;
pub mod dialog;
pub mod draft;
pub mod edit;
pub mod fields;
pub mod form;
pub mod form_laws;
pub mod list_laws;
pub mod listing;
pub mod rule_form;
pub mod settings;
pub mod transfer;
pub mod watch;
pub mod window;
pub mod window_laws;
