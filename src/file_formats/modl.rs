//! The header of a MODL model section.

use vstd::prelude::*;

verus! {

#[derive(Debug, Clone, Copy)]
pub struct ModlHeader {
    pub signature: [u8; 4],
    pub num_veritices: u16,
    pub num_faces: u16,
    pub unknown_1: u32,
    /// From the start of this model.
    pub offset_to_face_data: u32,
    /// From the start of this model.
    pub offset_to_unknown_data_1: u32,
    /// From the start of the model section.
    pub offset_to_face_data_index: u32,
    /// From the start of this model.
    pub offset_to_unknown_data_2: u32,
    pub offset_to_sub_model_1: u32,
    pub offset_to_sub_model_2: u32,
    pub unknown_2: [u8; 36],
    /// From the start of this model.
    pub offset_to_unknown_data_3: u32,
}

} // verus!
