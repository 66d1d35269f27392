pub mod encoding;
pub mod file;
pub mod icons;
pub mod port;
pub mod process;
pub mod term;
pub mod theme;
pub mod text;
pub mod top;
