use vstd::prelude::*;

verus! {

/// What a compute pipeline is built from: the SPIR-V bytes of its shader.
#[derive(Debug, Clone, Copy)]
pub struct ComputePipelineCreateInfo<'a> {
    pub shader_source: &'a [u8],
}

} // verus!
