pub mod byte_count;
pub mod counting;
pub mod nucleotide;
pub mod utils;
