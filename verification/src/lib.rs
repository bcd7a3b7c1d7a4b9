#![allow(non_camel_case_types, non_snake_case, non_upper_case_globals)]
pub mod defs;
pub mod stream;
pub mod util;
pub mod vlc;
pub mod param_sets;
pub mod nal;
pub mod slice_header;
pub mod macroblock;
pub mod neighbour;
pub mod dpb;
pub mod inter;
pub mod cavlc;
pub mod syntax;
pub mod vui;
pub mod sps;
pub mod pps;
pub mod slice_syntax;
pub mod poc;
pub mod byte_stream;
pub mod transform;
pub mod deblock;
pub mod image;
pub mod reconstruct;
pub mod conceal;
pub mod slice_group;
pub mod intra;
pub mod filter;
pub mod storage;
pub mod decoder;
pub mod residual;
pub mod mb_layer;
pub mod mb_decode;
pub mod slice_data;
pub mod decode;
