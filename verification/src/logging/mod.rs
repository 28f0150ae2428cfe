//! Log output to files.
pub mod colorful_line_renderer;
pub mod rotation_file_appender;
