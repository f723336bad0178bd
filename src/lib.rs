//! Reading of xyz / extended-xyz trajectory text: a value grammar, a decoder
//! for the metadata comment line, a frame parser, and the line reading and
//! frame selection of a trajectory reader.
//!
//! A frame is an atom-count line, a comment line and atom lines. The comment
//! line of an extxyz frame holds `key=value` metadata, which `Info` decodes;
//! its `Properties` entry gives the layout of the extra columns of the atom
//! lines, which `Info::parse_extra_columns` decodes.

mod dict;
mod error;
mod grammar;
mod info;
mod json;
mod metadata;
mod properties;
mod reader;
mod selection;
mod text;
mod xyz;

pub use crate::dict::Dict;
pub use crate::error::{Context, ParseError};
pub use crate::grammar::{
    recognize_boolean, recognize_integer, recognize_sci_float, recognize_unsigned_integer,
    ScanError,
};
pub use crate::info::{parse_extxyz_title, Info};
pub use crate::metadata::{
    key_value, parse_key_value_pairs, recognize_old_one_d_array, reformat_extxyz_value,
    reformat_old_style_array,
};
pub use crate::properties::{
    parse_property_values, ColumnValue, PropertyValue, PropertyValueType, Scalar,
};
pub use crate::reader::{
    atom_count_of, read_xyz_frames_direct, DirectFrames, Lines, TextReader,
};
pub use crate::selection::{selected_frames, FrameAction, FrameSelection};
pub use crate::xyz::{RawAtom, RawAtoms};
