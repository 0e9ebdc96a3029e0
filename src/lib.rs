pub mod blkx;
pub mod convert;
pub mod image;
pub mod koly;
pub mod mish;
pub mod partition;
pub mod util;
pub mod warnings;
pub mod xml;
