pub mod arena;
pub mod combat;
pub mod constants;
pub mod dialog;
pub mod dialog_file;
pub mod dialog_flat;
pub mod dialog_flow;
pub mod dialog_loading;
pub mod dialog_print;
pub mod dialog_states;
pub mod file_format;
pub mod file_writing;
pub mod flat_reading;
pub mod flat_writing;
pub mod movement;
pub mod text;
pub mod text_facts;
