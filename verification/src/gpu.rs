//! GPU compute data types: ids, vendors and features, buffer usage flags,
//! device limits and statistics, buffers, shaders, pipelines and passes.
use vstd::prelude::*;
use crate::text::string_of;

verus! {

/// Identifies a GPU buffer.
#[derive(Debug, Clone, Copy, PartialEq, Eq, Hash, Structural)]
pub struct BufferId(pub u64);

/// Identifies a compute pipeline.
#[derive(Debug, Clone, Copy, PartialEq, Eq, Hash, Structural)]
pub struct PipelineId(pub u64);

/// The maker of a GPU.
#[derive(Debug, Clone, PartialEq, Eq)]
pub enum GpuVendor {
    Nvidia,
    Amd,
    Intel,
    Apple,
    Unknown(String),
}

impl GpuVendor {
    /// The vendor's display name.
    pub open spec fn text(&self) -> Seq<char> {
        match self {
            GpuVendor::Nvidia => "NVIDIA"@,
            GpuVendor::Amd => "AMD"@,
            GpuVendor::Intel => "Intel"@,
            GpuVendor::Apple => "Apple"@,
            GpuVendor::Unknown(s) => s@,
        }
    }

    /// The vendor as it is displayed.
    pub fn display_string(&self) -> (r: String)
        ensures
            r@ == self.text(),
    {
        match self {
            GpuVendor::Nvidia => string_of("NVIDIA"),
            GpuVendor::Amd => string_of("AMD"),
            GpuVendor::Intel => string_of("Intel"),
            GpuVendor::Apple => string_of("Apple"),
            GpuVendor::Unknown(s) => string_of(s.as_str()),
        }
    }
}

/// The kind of device.
#[derive(Debug, Clone, Copy, PartialEq, Eq, Structural)]
pub enum GpuDeviceType {
    DiscreteGpu,
    IntegratedGpu,
    Cpu,
    VirtualGpu,
}

/// Optional device capabilities.
#[derive(Debug, Clone, Copy, PartialEq, Eq, Structural)]
pub enum GpuFeature {
    Float16,
    Float64,
    TimestampQuery,
    PipelineStatistics,
}

/// What a shader binding is bound to.
#[derive(Debug, Clone, PartialEq, Eq, Structural)]
pub enum BindingType {
    StorageBuffer { read_only: bool },
    UniformBuffer,
    Sampler,
    Texture,
}

/// A set of buffer usage flags, one bit each.
#[derive(Debug, Clone, Copy, PartialEq, Eq, Structural)]
pub struct BufferUsage(pub u32);

impl BufferUsage {
    /// The `STORAGE` flag alone.
    #[allow(non_snake_case)]
    pub fn STORAGE() -> (r: BufferUsage)
        ensures
            r.0 == 1,
    {
        BufferUsage(1)
    }

    /// The `UNIFORM` flag alone.
    #[allow(non_snake_case)]
    pub fn UNIFORM() -> (r: BufferUsage)
        ensures
            r.0 == 2,
    {
        BufferUsage(2)
    }

    /// The `MAP_READ` flag alone.
    #[allow(non_snake_case)]
    pub fn MAP_READ() -> (r: BufferUsage)
        ensures
            r.0 == 4,
    {
        BufferUsage(4)
    }

    /// The `MAP_WRITE` flag alone.
    #[allow(non_snake_case)]
    pub fn MAP_WRITE() -> (r: BufferUsage)
        ensures
            r.0 == 8,
    {
        BufferUsage(8)
    }

    /// The `COPY_SRC` flag alone.
    #[allow(non_snake_case)]
    pub fn COPY_SRC() -> (r: BufferUsage)
        ensures
            r.0 == 16,
    {
        BufferUsage(16)
    }

    /// The `COPY_DST` flag alone.
    #[allow(non_snake_case)]
    pub fn COPY_DST() -> (r: BufferUsage)
        ensures
            r.0 == 32,
    {
        BufferUsage(32)
    }


    /// Whether every flag of `other` is set here.
    pub fn contains(self, other: Self) -> (r: bool)
        ensures
            r == (self.0 & other.0 == other.0),
    {
        self.0 & other.0 == other.0
    }
}

impl std::ops::BitOr for BufferUsage {
    type Output = Self;

    /// The flags set in either.
    fn bitor(self, rhs: Self) -> (r: Self)
        ensures
            r.0 == self.0 | rhs.0,
    {
        BufferUsage(self.0 | rhs.0)
    }
}

impl vstd::std_specs::ops::BitOrSpecImpl for BufferUsage {
    open spec fn obeys_bitor_spec() -> bool {
        true
    }

    open spec fn bitor_req(self, rhs: BufferUsage) -> bool {
        true
    }

    open spec fn bitor_spec(self, rhs: BufferUsage) -> BufferUsage {
        BufferUsage(self.0 | rhs.0)
    }
}

/// The union of two flag sets contains each of them.
pub proof fn lemma_union_contains(a: u32, b: u32)
    ensures
        (a | b) & a == a,
        (a | b) & b == b,
{
    assert((a | b) & a == a) by (bit_vector);
    assert((a | b) & b == b) by (bit_vector);
}

/// Limits of a device.
#[derive(Debug, Clone)]
pub struct GpuLimits {
    pub max_buffer_size: u64,
    pub max_compute_workgroups_per_dimension: u32,
    pub max_compute_invocations_per_workgroup: u32,
    pub max_compute_workgroup_size_x: u32,
    pub max_compute_workgroup_size_y: u32,
    pub max_compute_workgroup_size_z: u32,
    pub max_bind_groups: u32,
    pub max_storage_buffers_per_shader_stage: u32,
}

impl Default for GpuLimits {
    fn default() -> (r: Self)
        ensures
            r.max_buffer_size == 256 * 1024 * 1024,
            r.max_compute_workgroups_per_dimension == 65535,
            r.max_compute_invocations_per_workgroup == 256,
            r.max_compute_workgroup_size_x == 256,
            r.max_compute_workgroup_size_y == 256,
            r.max_compute_workgroup_size_z == 64,
            r.max_bind_groups == 4,
            r.max_storage_buffers_per_shader_stage == 8,
    {
        GpuLimits {
            max_buffer_size: 256 * 1024 * 1024,
            max_compute_workgroups_per_dimension: 65535,
            max_compute_invocations_per_workgroup: 256,
            max_compute_workgroup_size_x: 256,
            max_compute_workgroup_size_y: 256,
            max_compute_workgroup_size_z: 64,
            max_bind_groups: 4,
            max_storage_buffers_per_shader_stage: 8,
        }
    }
}

/// Counters of a device.
#[derive(Debug, Clone)]
pub struct GpuStats {
    pub buffers_created: u64,
    pub buffers_destroyed: u64,
    pub pipelines_created: u64,
    pub pipelines_destroyed: u64,
    pub dispatches: u64,
    pub bytes_written: u64,
    pub bytes_read: u64,
}

impl Default for GpuStats {
    fn default() -> (r: Self)
        ensures
            r.buffers_created == 0 && r.buffers_destroyed == 0 && r.pipelines_created == 0
                && r.pipelines_destroyed == 0 && r.dispatches == 0 && r.bytes_written == 0
                && r.bytes_read == 0,
    {
        GpuStats {
            buffers_created: 0,
            buffers_destroyed: 0,
            pipelines_created: 0,
            pipelines_destroyed: 0,
            dispatches: 0,
            bytes_written: 0,
            bytes_read: 0,
        }
    }
}

/// A buffer on the device.
#[derive(Debug, Clone)]
pub struct GpuBuffer {
    pub id: BufferId,
    pub size: u64,
    pub usage: BufferUsage,
    pub data: Vec<u8>,
    pub mapped: bool,
}

/// One binding that a shader declares.
#[derive(Debug, Clone)]
pub struct ShaderBinding {
    pub group: u32,
    pub binding: u32,
    pub name: String,
    pub binding_type: BindingType,
}

/// A compute shader's source, entry point and bindings.
#[derive(Debug, Clone)]
pub struct ShaderModule {
    pub source: String,
    pub entry_point: String,
    pub bindings: Vec<ShaderBinding>,
}

/// A buffer bound at a binding slot.
#[derive(Debug, Clone)]
pub struct BindGroupEntry {
    pub binding: u32,
    pub buffer_id: BufferId,
}

/// A group of bound buffers.
#[derive(Debug, Clone)]
pub struct BindGroup {
    pub entries: Vec<BindGroupEntry>,
}

/// A shader with its bind groups and workgroup size.
#[derive(Debug, Clone)]
pub struct ComputePipeline {
    pub id: PipelineId,
    pub shader: ShaderModule,
    pub bind_groups: Vec<BindGroup>,
    pub workgroup_size: [u32; 3],
}

/// One dispatch of a pipeline.
#[derive(Debug, Clone)]
pub struct ComputePass {
    pub pipeline_id: PipelineId,
    pub bind_groups: Vec<u32>,
    pub dispatch: [u32; 3],
}

} // verus!
