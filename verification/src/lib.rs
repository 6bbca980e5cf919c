//! Verified core of a thermal-printer toolkit: ESC/POS command building for
//! the Rongta RP326, raster packing, upload handling and the HTML block model
//! used to lay out documents for printing.

pub mod escpos;
pub mod datauri;
pub mod text;
pub mod dom;
pub mod blocks;
pub mod upload;
pub mod render;
pub mod client;
pub mod printer;
pub mod layout;
