//! What the Vulkan renderer decides beside recording frames: whether a device can be used, how
//! submissions follow one another, and when resources are released.

use vstd::prelude::*;

use crate::barrier::Queues;
use crate::hdr::HdrOutputConfig;
use crate::softfloat::f32_to_u32;
#[allow(unused_imports)]
use crate::softfloat::f32_whole;
#[allow(unused_imports)]
use crate::vk::{QUEUE_FAMILY_EXTERNAL, QUEUE_FAMILY_FOREIGN};

verus! {

/// Optional abilities of a device.
#[derive(Debug, Clone, Copy, PartialEq, Eq, Structural)]
pub enum Capability {
    DmabufMemory,
    ExportTimeline,
    HostImageCopy,
    QueueFamilyForeign,
    PushDescriptor,
    MemoryBudget,
    DynamicRendering,
    DescriptorIndexing,
    MultiDrawIndirect,
    ShaderDrawParameters,
    MemoryPriority,
    GlobalPriority,
}

/// Which abilities a device reports.
#[derive(Debug, Clone, Copy, PartialEq, Eq, Structural)]
pub struct Support {
    pub dmabuf_memory: bool,
    pub export_timeline: bool,
    pub host_image_copy: bool,
    pub queue_family_foreign: bool,
    pub push_descriptor: bool,
    pub memory_budget: bool,
    pub dynamic_rendering: bool,
    pub descriptor_indexing: bool,
    pub multi_draw_indirect: bool,
    pub shader_draw_parameters: bool,
    pub memory_priority: bool,
    pub global_priority: bool,
}

impl Support {
    /// Whether the device reports an ability.
    pub open spec fn reports(self, capability: Capability) -> bool {
        match capability {
            Capability::DmabufMemory => self.dmabuf_memory,
            Capability::ExportTimeline => self.export_timeline,
            Capability::HostImageCopy => self.host_image_copy,
            Capability::QueueFamilyForeign => self.queue_family_foreign,
            Capability::PushDescriptor => self.push_descriptor,
            Capability::MemoryBudget => self.memory_budget,
            Capability::DynamicRendering => self.dynamic_rendering,
            Capability::DescriptorIndexing => self.descriptor_indexing,
            Capability::MultiDrawIndirect => self.multi_draw_indirect,
            Capability::ShaderDrawParameters => self.shader_draw_parameters,
            Capability::MemoryPriority => self.memory_priority,
            Capability::GlobalPriority => self.global_priority,
        }
    }

    fn has(&self, capability: Capability) -> (r: bool)
        ensures
            r == self.reports(capability),
    {
        match capability {
            Capability::DmabufMemory => self.dmabuf_memory,
            Capability::ExportTimeline => self.export_timeline,
            Capability::HostImageCopy => self.host_image_copy,
            Capability::QueueFamilyForeign => self.queue_family_foreign,
            Capability::PushDescriptor => self.push_descriptor,
            Capability::MemoryBudget => self.memory_budget,
            Capability::DynamicRendering => self.dynamic_rendering,
            Capability::DescriptorIndexing => self.descriptor_indexing,
            Capability::MultiDrawIndirect => self.multi_draw_indirect,
            Capability::ShaderDrawParameters => self.shader_draw_parameters,
            Capability::MemoryPriority => self.memory_priority,
            Capability::GlobalPriority => self.global_priority,
        }
    }
}

/// Why a device cannot be used.
#[derive(Debug, Clone, Copy, PartialEq, Eq, Structural)]
pub enum DeviceRefusal {
    MismatchedDrmDevice,
    UnsupportedVersion,
    /// A required feature, by its number among the features that were asked for.
    MissingFeature(u32),
}

/// The least version of a device.
pub const MIN_DEVICE_VERSION: u32 = 0x0040_3000;

/// The highest version of an instance.
pub const MAX_INSTANCE_VERSION: u32 = 0x0040_3000;

/// A display device as the kernel numbers it: the node that was opened and the render and
/// primary nodes of the same device.
#[derive(Debug, Clone, Copy, PartialEq, Eq, Structural)]
pub struct DrmNodes {
    pub opened: u64,
    pub render: Option<u64>,
    pub primary: Option<u64>,
}

/// What is known of a device before it is used.
#[derive(Debug, Clone, Copy, PartialEq, Eq, Structural)]
pub struct DeviceFacts {
    /// The display device that the renderer is to work with.
    pub drm: Option<DrmNodes>,
    pub render_node: Option<u64>,
    pub primary_node: Option<u64>,
    pub api_version: u32,
    pub instance_version: u32,
    pub missing_feature: Option<u32>,
    pub support: Support,
}

/// The graphics device is the display device.
pub open spec fn same_device(drm: DrmNodes, render_node: Option<u64>, primary_node: Option<u64>) -> bool {
    ||| match render_node {
        Some(node) => node == drm.opened || Some(node) == drm.render,
        None => false,
    }
    ||| match primary_node {
        Some(node) => node == drm.opened || Some(node) == drm.primary,
        None => false,
    }
}

/// The version that is usable on a device, which is never above that of the instance, is high
/// enough, and that of the instance is not too high.
pub open spec fn version_fits(api_version: u32, instance_version: u32) -> bool {
    let usable = if api_version < instance_version {
        api_version
    } else {
        instance_version
    };
    usable >= MIN_DEVICE_VERSION && instance_version <= MAX_INSTANCE_VERSION
}

/// The node of a device that can be used, or why it cannot.
pub open spec fn device_verdict(facts: DeviceFacts) -> Result<Option<u64>, DeviceRefusal> {
    if facts.drm is Some && !same_device(
        facts.drm->Some_0,
        facts.render_node,
        facts.primary_node,
    ) {
        Err(DeviceRefusal::MismatchedDrmDevice)
    } else if !version_fits(facts.api_version, facts.instance_version) {
        Err(DeviceRefusal::UnsupportedVersion)
    } else {
        match facts.missing_feature {
            Some(feature) => Err(DeviceRefusal::MissingFeature(feature)),
            None => Ok(
                match facts.drm {
                    Some(drm) => Some(drm.opened),
                    None => facts.render_node,
                },
            ),
        }
    }
}

/// How a renderer is set up on a device.
#[derive(Debug)]
pub struct RendererSetup {
    pub node: Option<u64>,
    pub capabilities: Vec<Capability>,
    /// The timeline is shared with the display device.
    pub export_timeline: bool,
    pub memory_priority: bool,
    pub indirect_draws: bool,
    pub bindless: bool,
}

impl RendererSetup {
    /// Whether the device has an optional ability.
    fn has(&self, capability: Capability) -> (r: bool)
        ensures
            r == self.capabilities@.contains(capability),
    {
        let mut i: usize = 0;
        while i < self.capabilities.len()
            invariant
                i <= self.capabilities@.len(),
                forall|k: int| 0 <= k < i ==> #[trigger] self.capabilities@[k] != capability,
            decreases self.capabilities@.len() - i,
        {
            if self.capabilities[i] == capability {
                return true;
            }
            i = i + 1;
        }
        false
    }

    pub fn supports_descriptor_indexing(&self) -> (r: bool)
        ensures
            r == self.capabilities@.contains(Capability::DescriptorIndexing),
    {
        self.has(Capability::DescriptorIndexing)
    }

    pub fn supports_multi_draw_indirect(&self) -> (r: bool)
        ensures
            r == self.capabilities@.contains(Capability::MultiDrawIndirect),
    {
        self.has(Capability::MultiDrawIndirect)
    }

    pub fn supports_shader_draw_parameters(&self) -> (r: bool)
        ensures
            r == self.capabilities@.contains(Capability::ShaderDrawParameters),
    {
        self.has(Capability::ShaderDrawParameters)
    }

    pub fn supports_push_descriptor(&self) -> (r: bool)
        ensures
            r == self.capabilities@.contains(Capability::PushDescriptor),
    {
        self.has(Capability::PushDescriptor)
    }

    pub fn supports_memory_budget(&self) -> (r: bool)
        ensures
            r == self.capabilities@.contains(Capability::MemoryBudget),
    {
        self.has(Capability::MemoryBudget)
    }

    pub fn supports_dynamic_rendering(&self) -> (r: bool)
        ensures
            r == self.capabilities@.contains(Capability::DynamicRendering),
    {
        self.has(Capability::DynamicRendering)
    }

    /// The queue family on the other side of shared images.
    pub fn external_queue_family(&self) -> (family: u32)
        ensures
            family == if self.capabilities@.contains(Capability::QueueFamilyForeign) {
                QUEUE_FAMILY_FOREIGN
            } else {
                QUEUE_FAMILY_EXTERNAL
            },
    {
        Queues::external_family(self.has(Capability::QueueFamilyForeign))
    }

    pub fn node(&self) -> (node: Option<u64>)
        ensures
            node == self.node,
    {
        self.node
    }
}

/// All abilities, in the order in which they are tried.
pub open spec fn all_capabilities() -> Seq<Capability> {
    seq![
        Capability::DmabufMemory,
        Capability::ExportTimeline,
        Capability::HostImageCopy,
        Capability::QueueFamilyForeign,
        Capability::PushDescriptor,
        Capability::MemoryBudget,
        Capability::DynamicRendering,
        Capability::DescriptorIndexing,
        Capability::MultiDrawIndirect,
        Capability::ShaderDrawParameters,
        Capability::MemoryPriority,
        Capability::GlobalPriority,
    ]
}

/// Those of a list that a device reports.
pub open spec fn reported(list: Seq<Capability>, support: Support) -> Seq<Capability>
    decreases list.len(),
{
    if list.len() == 0 {
        seq![]
    } else if support.reports(list.last()) {
        reported(list.drop_last(), support).push(list.last())
    } else {
        reported(list.drop_last(), support)
    }
}

fn list_capabilities(support: &Support) -> (list: Vec<Capability>)
    ensures
        list@ == reported(all_capabilities(), *support),
{
    let all: Vec<Capability> = vec![
        Capability::DmabufMemory,
        Capability::ExportTimeline,
        Capability::HostImageCopy,
        Capability::QueueFamilyForeign,
        Capability::PushDescriptor,
        Capability::MemoryBudget,
        Capability::DynamicRendering,
        Capability::DescriptorIndexing,
        Capability::MultiDrawIndirect,
        Capability::ShaderDrawParameters,
        Capability::MemoryPriority,
        Capability::GlobalPriority,
    ];
    assert(all@ =~= all_capabilities());
    let mut list: Vec<Capability> = Vec::new();
    let mut i: usize = 0;
    assert(all@.take(0) =~= seq![]);
    while i < all.len()
        invariant
            i <= all.len(),
            list@ == reported(all@.take(i as int), *support),
        decreases all.len() - i,
    {
        proof {
            assert(all@.take(i + 1).last() == all@[i as int]);
            assert(all@.take(i + 1).drop_last() =~= all@.take(i as int));
        }
        if support.has(all[i]) {
            list.push(all[i]);
        }
        i = i + 1;
    }
    assert(all@.take(i as int) =~= all@);
    list
}

/// The list holds exactly the abilities that the device reports.
pub proof fn law_capabilities_are_those_reported(support: Support, capability: Capability)
    ensures
        reported(all_capabilities(), support).contains(capability) <==> support.reports(capability),
{
    lemma_reported(all_capabilities(), support, capability);
    let all = all_capabilities();
    assert(all[0] == Capability::DmabufMemory);
    assert(all[1] == Capability::ExportTimeline);
    assert(all[2] == Capability::HostImageCopy);
    assert(all[3] == Capability::QueueFamilyForeign);
    assert(all[4] == Capability::PushDescriptor);
    assert(all[5] == Capability::MemoryBudget);
    assert(all[6] == Capability::DynamicRendering);
    assert(all[7] == Capability::DescriptorIndexing);
    assert(all[8] == Capability::MultiDrawIndirect);
    assert(all[9] == Capability::ShaderDrawParameters);
    assert(all[10] == Capability::MemoryPriority);
    assert(all[11] == Capability::GlobalPriority);
    assert(all.contains(capability));
}

proof fn lemma_reported(list: Seq<Capability>, support: Support, capability: Capability)
    ensures
        reported(list, support).contains(capability) <==> list.contains(capability)
            && support.reports(capability),
    decreases list.len(),
{
    if list.len() > 0 {
        let front = list.drop_last();
        let last = list.last();
        lemma_reported(front, support, capability);
        assert(list =~= front.push(last));
        let before = reported(front, support);
        assert(list.contains(capability) <==> front.contains(capability) || capability == last) by {
            if front.contains(capability) {
                let i = choose|i: int| 0 <= i < front.len() && front[i] == capability;
                assert(list[i] == capability);
            }
            assert(list[list.len() - 1] == last);
        }
        assert(before.push(last).contains(capability) <==> before.contains(capability)
            || capability == last) by {
            if before.contains(capability) {
                let i = choose|i: int| 0 <= i < before.len() && before[i] == capability;
                assert(before.push(last)[i] == capability);
            }
            assert(before.push(last)[before.len() as int] == last);
        }
    }
}

/// Decides whether a device can be used, and how.
pub fn set_up(facts: &DeviceFacts) -> (r: Result<RendererSetup, DeviceRefusal>)
    ensures
        match (r, device_verdict(*facts)) {
            (Ok(setup), Ok(node)) => {
                &&& setup.node == node
                &&& setup.capabilities@ == reported(all_capabilities(), facts.support)
                &&& setup.export_timeline == (facts.support.export_timeline && facts.drm is Some)
                &&& setup.memory_priority == facts.support.memory_priority
                &&& setup.indirect_draws == facts.support.multi_draw_indirect
                &&& setup.bindless == facts.support.descriptor_indexing
            },
            (Err(refusal), Err(expected)) => refusal == expected,
            _ => false,
        },
{
    let node: Option<u64> = match facts.drm {
        Some(drm) => {
            let by_render: bool = match facts.render_node {
                Some(node) => node == drm.opened || Some(node) == drm.render,
                None => false,
            };
            let by_primary: bool = match facts.primary_node {
                Some(node) => node == drm.opened || Some(node) == drm.primary,
                None => false,
            };
            if !by_render && !by_primary {
                return Err(DeviceRefusal::MismatchedDrmDevice);
            }
            Some(drm.opened)
        },
        None => facts.render_node,
    };
    let usable: u32 = if facts.api_version < facts.instance_version {
        facts.api_version
    } else {
        facts.instance_version
    };
    if usable < MIN_DEVICE_VERSION || facts.instance_version > MAX_INSTANCE_VERSION {
        return Err(DeviceRefusal::UnsupportedVersion);
    }
    if let Some(feature) = facts.missing_feature {
        return Err(DeviceRefusal::MissingFeature(feature));
    }
    Ok(
        RendererSetup {
            node,
            capabilities: list_capabilities(&facts.support),
            export_timeline: facts.support.export_timeline && facts.drm.is_some(),
            memory_priority: facts.support.memory_priority,
            indirect_draws: facts.support.multi_draw_indirect,
            bindless: facts.support.descriptor_indexing,
        },
    )
}

/// Whether images with optimal tiling can be filled by host copies: if that does not change
/// their memory types, or if a probe succeeds.
pub fn optimal_host_copy(host_image_copy: bool, identical_memory_types: bool, probe: bool) -> (r: bool)
    ensures
        r == (host_image_copy && (identical_memory_types || probe)),
{
    host_image_copy && (identical_memory_types || probe)
}

/// How textures are sampled.
#[derive(Debug, Clone, Copy, PartialEq, Eq, Structural)]
pub enum TextureFilter {
    Linear,
    Nearest,
}

/// A point on a timeline.
#[derive(Debug, Clone, Copy, PartialEq, Eq, Structural)]
pub struct TimelinePoint {
    pub timeline: u64,
    pub point: u64,
}

/// Something to wait for before continuing.
#[derive(Debug, Clone, Copy, PartialEq, Eq, Structural)]
pub enum SyncKind {
    /// A point on a timeline of the kernel.
    Drm(TimelinePoint),
    /// A point on a timeline of a graphics device.
    Vulkan(TimelinePoint),
    /// Anything else.
    Other,
}

/// How something is waited for.
#[derive(Debug, Clone, Copy, PartialEq, Eq, Structural)]
pub enum WaitPlan {
    /// The order of submissions takes care of it.
    Ordered,
    /// The next submission waits for it.
    NextSubmission,
    /// The program waits.
    Blocking,
}

/// The commands of a frame that wait for a batch to be submitted.
#[derive(Debug)]
pub struct QueuedSubmit {
    pub cmd_buffer: u64,
    pub wait_previous: Option<u64>,
    pub waits: Vec<TimelinePoint>,
    pub point: u64,
}

/// A resource that is released when the timeline reaches a point.
#[derive(Debug, Clone, Copy, PartialEq, Eq, Structural)]
pub struct DeferredDestruction {
    pub point: u64,
    pub resource: u64,
}

/// Parameters of a color lookup table: luminances in whole cd/m^2.
pub type LutParameters = (u32, u32, u32);

/// The current color lookup table.
#[derive(Debug, Clone, Copy, PartialEq, Eq)]
pub struct CurrentLut {
    pub resource: u64,
    pub parameters: LutParameters,
}

/// State of the renderer between frames.
#[derive(Debug)]
pub struct VulkanRenderer {
    pub seq_no: u64,
    /// The renderer's own timeline.
    pub timeline: u64,
    /// The same timeline as the display device knows it.
    pub drm_timeline: Option<u64>,
    pub batch_submits: bool,
    pub queued_submits: Vec<QueuedSubmit>,
    pub pending_waits: Vec<TimelinePoint>,
    pub deferred_destructions: Vec<DeferredDestruction>,
    pub downscale_filter: TextureFilter,
    pub upscale_filter: TextureFilter,
    pub hdr_config: Option<HdrOutputConfig>,
    pub lut: Option<CurrentLut>,
}

/// Number of resources that are released when the timeline has reached a value: those before the
/// first that has to wait.
pub open spec fn retired_count(deferred: Seq<DeferredDestruction>, value: u64) -> int
    decreases deferred.len(),
{
    if deferred.len() == 0 || deferred[0].point > value {
        0
    } else {
        1 + retired_count(deferred.drop_first(), value)
    }
}

proof fn lemma_retired(deferred: Seq<DeferredDestruction>, value: u64)
    ensures
        0 <= retired_count(deferred, value) <= deferred.len(),
        forall|i: int|
            0 <= i < retired_count(deferred, value) ==> (#[trigger] deferred[i]).point <= value,
        retired_count(deferred, value) < deferred.len() ==> deferred[retired_count(
            deferred,
            value,
        )].point > value,
    decreases deferred.len(),
{
    if deferred.len() > 0 && deferred[0].point <= value {
        let rest = deferred.drop_first();
        lemma_retired(rest, value);
        let n = retired_count(deferred, value);
        assert forall|i: int| 0 <= i < n implies (#[trigger] deferred[i]).point <= value by {
            if i > 0 {
                assert(deferred[i] == rest[i - 1]);
            }
        }
        if n < deferred.len() {
            assert(deferred[n] == rest[n - 1]);
        }
    }
}

/// A resource is released only when the timeline has reached its point, and none that waits is
/// passed over by a later one.
pub proof fn law_resources_outlive_their_frames(
    deferred: Seq<DeferredDestruction>,
    value: u64,
    i: int,
)
    requires
        0 <= i < deferred.len(),
        i < retired_count(deferred, value),
    ensures
        deferred[i].point <= value,
{
    lemma_retired(deferred, value);
}

/// The end of a frame's commands: what they signal and what they wait for.
#[derive(Debug, Clone, Copy, PartialEq, Eq, Structural)]
pub struct Submission {
    pub point: u64,
    /// The previous submission, if there is one.
    pub wait_previous: Option<u64>,
}

impl VulkanRenderer {
    /// A renderer that has not submitted anything.
    pub fn new(timeline: u64, drm_timeline: Option<u64>) -> (r: VulkanRenderer)
        ensures
            r.seq_no == 0,
            r.timeline == timeline,
            r.drm_timeline == drm_timeline,
            !r.batch_submits,
            r.queued_submits@.len() == 0,
            r.pending_waits@.len() == 0,
            r.deferred_destructions@.len() == 0,
            r.downscale_filter == TextureFilter::Linear,
            r.upscale_filter == TextureFilter::Linear,
            r.hdr_config is None,
            r.lut is None,
    {
        VulkanRenderer {
            seq_no: 0,
            timeline,
            drm_timeline,
            batch_submits: false,
            queued_submits: Vec::new(),
            pending_waits: Vec::new(),
            deferred_destructions: Vec::new(),
            downscale_filter: TextureFilter::Linear,
            upscale_filter: TextureFilter::Linear,
            hdr_config: None,
            lut: None,
        }
    }

    /// The next submission; it waits for the one before.
    pub open spec fn next_submission(&self) -> Submission {
        Submission {
            point: (self.seq_no + 1) as u64,
            wait_previous: if self.seq_no > 0 {
                Some(self.seq_no)
            } else {
                None
            },
        }
    }

    /// See [`VulkanRenderer::next_submission`].
    pub fn plan_submission(&self) -> (submission: Submission)
        requires
            self.seq_no < u64::MAX,
        ensures
            submission == self.next_submission(),
    {
        Submission {
            point: self.seq_no + 1,
            wait_previous: if self.seq_no > 0 {
                Some(self.seq_no)
            } else {
                None
            },
        }
    }

    /// Everything but the sequence number and the queue is as before.
    pub open spec fn same_but_queue(&self, other: &VulkanRenderer) -> bool {
        &&& self.timeline == other.timeline
        &&& self.drm_timeline == other.drm_timeline
        &&& self.pending_waits@ == other.pending_waits@
        &&& self.deferred_destructions@ == other.deferred_destructions@
        &&& self.downscale_filter == other.downscale_filter
        &&& self.upscale_filter == other.upscale_filter
        &&& self.hdr_config == other.hdr_config
        &&& self.lut == other.lut
    }

    /// Takes the next submission for a frame. In a batch it is queued, otherwise the commands are
    /// to be submitted at once.
    pub fn submit_frame(&mut self, cmd_buffer: u64, waits: Vec<TimelinePoint>) -> (r: (
        Submission,
        Option<Vec<TimelinePoint>>,
    ))
        requires
            old(self).seq_no < u64::MAX,
        ensures
            r.0 == old(self).next_submission(),
            final(self).seq_no == old(self).seq_no + 1,
            final(self).batch_submits == old(self).batch_submits,
            final(self).same_but_queue(old(self)),
            match r.1 {
                Some(now) => {
                    &&& !old(self).batch_submits
                    &&& now@ == waits@
                    &&& final(self).queued_submits@ == old(self).queued_submits@
                },
                None => {
                    &&& old(self).batch_submits
                    &&& final(self).queued_submits@ == old(self).queued_submits@.push(
                        QueuedSubmit {
                            cmd_buffer,
                            wait_previous: r.0.wait_previous,
                            waits,
                            point: r.0.point,
                        },
                    )
                },
            },
    {
        let submission: Submission = self.plan_submission();
        self.seq_no = submission.point;
        if self.batch_submits {
            self.queued_submits.push(
                QueuedSubmit {
                    cmd_buffer,
                    wait_previous: submission.wait_previous,
                    waits,
                    point: submission.point,
                },
            );
            (submission, None)
        } else {
            (submission, Some(waits))
        }
    }

    /// Counts a submission that the device has accepted.
    pub fn advance(&mut self)
        requires
            old(self).seq_no < u64::MAX,
        ensures
            final(self).seq_no == old(self).seq_no + 1,
            final(self).batch_submits == old(self).batch_submits,
            final(self).queued_submits@ == old(self).queued_submits@,
            final(self).same_but_queue(old(self)),
    {
        self.seq_no = self.seq_no + 1;
    }

    /// Starts a batch. What was queued before is dropped and handed back.
    pub fn begin_batch(&mut self) -> (dropped: Vec<QueuedSubmit>)
        ensures
            dropped@ == old(self).queued_submits@,
            final(self).queued_submits@.len() == 0,
            final(self).batch_submits,
            final(self).seq_no == old(self).seq_no,
            final(self).same_but_queue(old(self)),
    {
        let dropped: Vec<QueuedSubmit> = self.cancel_batch();
        self.batch_submits = true;
        dropped
    }

    /// Ends a batch without submitting it; what was queued is handed back.
    pub fn cancel_batch(&mut self) -> (dropped: Vec<QueuedSubmit>)
        ensures
            dropped@ == old(self).queued_submits@,
            final(self).queued_submits@.len() == 0,
            !final(self).batch_submits,
            final(self).seq_no == old(self).seq_no,
            final(self).same_but_queue(old(self)),
    {
        self.batch_submits = false;
        let mut dropped: Vec<QueuedSubmit> = Vec::new();
        std::mem::swap(&mut dropped, &mut self.queued_submits);
        dropped
    }

    /// Ends a batch and gives what is submitted, in order.
    pub fn flush_batch(&mut self) -> (queued: Vec<QueuedSubmit>)
        ensures
            queued@ == old(self).queued_submits@,
            final(self).queued_submits@.len() == 0,
            !final(self).batch_submits,
            final(self).seq_no == old(self).seq_no,
            final(self).same_but_queue(old(self)),
    {
        self.cancel_batch()
    }

    /// Releases a resource when the timeline reaches a point.
    pub fn defer_cleanup(&mut self, point: u64, resource: u64)
        ensures
            final(self).deferred_destructions@ == old(self).deferred_destructions@.push(
                DeferredDestruction { point, resource },
            ),
            *final(self) == (VulkanRenderer {
                deferred_destructions: final(self).deferred_destructions,
                ..*old(self)
            }),
    {
        self.deferred_destructions.push(DeferredDestruction { point, resource });
    }

    /// Gives the resources that can be released now that the timeline has reached a value.
    pub fn cleanup(&mut self, value: u64) -> (retired: Vec<DeferredDestruction>)
        ensures
            ({
                let before = old(self).deferred_destructions@;
                let n = retired_count(before, value);
                &&& retired@ == before.take(n)
                &&& final(self).deferred_destructions@ == before.skip(n)
                &&& forall|i: int|
                    0 <= i < retired@.len() ==> (#[trigger] retired@[i]).point <= value
            }),
            *final(self) == (VulkanRenderer {
                deferred_destructions: final(self).deferred_destructions,
                ..*old(self)
            }),
    {
        let ghost before = self.deferred_destructions@;
        let mut n: usize = 0;
        assert(before.skip(0) =~= before);
        while n < self.deferred_destructions.len() && self.deferred_destructions[n].point <= value
            invariant
                n <= self.deferred_destructions@.len(),
                self.deferred_destructions@ == before,
                *self == *old(self),
                retired_count(before, value) == n + retired_count(before.skip(n as int), value),
            decreases self.deferred_destructions@.len() - n,
        {
            assert(before.skip(n as int)[0] == before[n as int]);
            assert(before.skip(n as int).drop_first() =~= before.skip(n + 1));
            n = n + 1;
        }
        proof {
            if n < before.len() {
                assert(before.skip(n as int)[0] == before[n as int]);
            }
            assert(retired_count(before, value) == n);
            lemma_retired(before, value);
        }
        let mut kept: Vec<DeferredDestruction> = self.deferred_destructions.split_off(n);
        std::mem::swap(&mut kept, &mut self.deferred_destructions);
        assert(kept@ =~= before.take(n as int));
        assert(self.deferred_destructions@ =~= before.skip(n as int));
        kept
    }

    /// The filter for a texture that is shown smaller or larger.
    pub fn active_sampler(&self, is_downscaling: bool) -> (filter: TextureFilter)
        ensures
            filter == if is_downscaling {
                self.downscale_filter
            } else {
                self.upscale_filter
            },
    {
        if is_downscaling {
            self.downscale_filter
        } else {
            self.upscale_filter
        }
    }

    /// How something is waited for: work of the renderer itself is ordered anyway, a point of
    /// another device is waited for by the next submission, and anything else by the program.
    pub open spec fn wait_plan(&self, sync: SyncKind) -> WaitPlan {
        match sync {
            SyncKind::Drm(point) => if self.drm_timeline == Some(point.timeline) {
                WaitPlan::Ordered
            } else {
                WaitPlan::NextSubmission
            },
            SyncKind::Vulkan(point) => if point.timeline == self.timeline {
                WaitPlan::Ordered
            } else {
                WaitPlan::Blocking
            },
            SyncKind::Other => WaitPlan::Blocking,
        }
    }

    /// See [`VulkanRenderer::wait_plan`].
    pub fn wait(&mut self, sync: SyncKind) -> (plan: WaitPlan)
        ensures
            plan == old(self).wait_plan(sync),
            final(self).pending_waits@ == match (plan, sync) {
                (WaitPlan::NextSubmission, SyncKind::Drm(point)) => old(self).pending_waits@.push(
                    point,
                ),
                _ => old(self).pending_waits@,
            },
            *final(self) == (VulkanRenderer {
                pending_waits: final(self).pending_waits,
                ..*old(self)
            }),
    {
        match sync {
            SyncKind::Drm(point) => {
                if self.drm_timeline == Some(point.timeline) {
                    WaitPlan::Ordered
                } else {
                    self.pending_waits.push(point);
                    WaitPlan::NextSubmission
                }
            },
            SyncKind::Vulkan(point) => if point.timeline == self.timeline {
                WaitPlan::Ordered
            } else {
                WaitPlan::Blocking
            },
            SyncKind::Other => WaitPlan::Blocking,
        }
    }

    /// Waits within a frame, which has taken over the points that its submission waits for.
    pub fn wait_in_frame(&self, waits: &mut Vec<TimelinePoint>, sync: SyncKind) -> (plan: WaitPlan)
        ensures
            plan == self.wait_plan(sync),
            final(waits)@ == match (plan, sync) {
                (WaitPlan::NextSubmission, SyncKind::Drm(point)) => old(waits)@.push(point),
                _ => old(waits)@,
            },
    {
        match sync {
            SyncKind::Drm(point) => {
                if self.drm_timeline == Some(point.timeline) {
                    WaitPlan::Ordered
                } else {
                    waits.push(point);
                    WaitPlan::NextSubmission
                }
            },
            SyncKind::Vulkan(point) => if point.timeline == self.timeline {
                WaitPlan::Ordered
            } else {
                WaitPlan::Blocking
            },
            SyncKind::Other => WaitPlan::Blocking,
        }
    }

    /// The points to wait for, which the next frame takes over.
    pub fn take_waits(&mut self) -> (waits: Vec<TimelinePoint>)
        ensures
            waits@ == old(self).pending_waits@,
            final(self).pending_waits@.len() == 0,
            *final(self) == (VulkanRenderer {
                pending_waits: final(self).pending_waits,
                ..*old(self)
            }),
    {
        let mut waits: Vec<TimelinePoint> = Vec::new();
        std::mem::swap(&mut waits, &mut self.pending_waits);
        waits
    }

    /// The parameters of a new color lookup table, if the current one does not fit. Luminances
    /// are compared in whole cd/m^2.
    pub open spec fn wanted_lut(&self, ref_white: u32, max_content: u32, max_dest: u32) -> Option<
        LutParameters,
    > {
        let wanted = (
            f32_whole(ref_white) as u32,
            f32_whole(max_content) as u32,
            f32_whole(max_dest) as u32,
        );
        match self.lut {
            Some(lut) if lut.parameters == wanted => None,
            _ => Some(wanted),
        }
    }

    /// See [`VulkanRenderer::wanted_lut`].
    pub fn update_3d_lut(&self, ref_white: u32, max_content: u32, max_dest: u32) -> (r: Option<
        LutParameters,
    >)
        ensures
            r == self.wanted_lut(ref_white, max_content, max_dest),
    {
        let a: u32 = f32_to_u32(ref_white);
        let b: u32 = f32_to_u32(max_content);
        let c: u32 = f32_to_u32(max_dest);
        match self.lut {
            Some(lut) => {
                let (x, y, z) = lut.parameters;
                if x == a && y == b && z == c {
                    None
                } else {
                    Some((a, b, c))
                }
            },
            None => Some((a, b, c)),
        }
    }

    /// The renderer with a new lookup table. The one before is released when all that was
    /// submitted so far is done.
    pub open spec fn has_replaced_lut(&self, before: &VulkanRenderer, lut: CurrentLut) -> bool {
        &&& self.lut == Some(lut)
        &&& self.deferred_destructions@ == match before.lut {
            Some(old_lut) => before.deferred_destructions@.push(
                DeferredDestruction { point: before.seq_no, resource: old_lut.resource },
            ),
            None => before.deferred_destructions@,
        }
        &&& *self == (VulkanRenderer {
            lut: self.lut,
            deferred_destructions: self.deferred_destructions,
            ..*before
        })
    }

    /// Takes over a lookup table that was made, under the name of its resource. If it could not
    /// be made the one before stays.
    pub fn finish_3d_lut(&mut self, parameters: LutParameters, made: Option<u64>)
        ensures
            match made {
                Some(resource) => final(self).has_replaced_lut(
                    old(self),
                    CurrentLut { resource, parameters },
                ),
                None => *final(self) == *old(self),
            },
    {
        if let Some(resource) = made {
            if let Some(old_lut) = self.lut {
                let seq_no: u64 = self.seq_no;
                self.defer_cleanup(seq_no, old_lut.resource);
            }
            self.lut = Some(CurrentLut { resource, parameters });
        }
    }

    pub fn hdr_output(&self) -> (config: Option<HdrOutputConfig>)
        ensures
            config == self.hdr_config,
    {
        self.hdr_config
    }

    pub fn drm_timeline(&self) -> (timeline: Option<u64>)
        ensures
            timeline == self.drm_timeline,
    {
        self.drm_timeline
    }

    pub fn timeline_semaphore(&self) -> (timeline: u64)
        ensures
            timeline == self.timeline,
    {
        self.timeline
    }

    /// Sets the HDR target; gives the parameters of the lookup table that it needs.
    pub fn set_hdr_output(&mut self, config: Option<HdrOutputConfig>) -> (lut: Option<LutParameters>)
        ensures
            *final(self) == (VulkanRenderer { hdr_config: config, ..*old(self) }),
            lut == match config {
                None => None,
                Some(c) => old(self).wanted_lut(
                    c.reference_white,
                    c.max_luminance,
                    c.max_luminance,
                ),
            },
    {
        let lut: Option<LutParameters> = match config {
            Some(c) => self.update_3d_lut(c.reference_white, c.max_luminance, c.max_luminance),
            None => None,
        };
        self.hdr_config = config;
        lut
    }
}

/// Once a table was made, the same request asks for no other.
pub proof fn law_tables_are_made_once(
    before: VulkanRenderer,
    after: VulkanRenderer,
    ref_white: u32,
    max_content: u32,
    max_dest: u32,
    parameters: LutParameters,
    resource: u64,
)
    requires
        before.wanted_lut(ref_white, max_content, max_dest) == Some(parameters),
        after.has_replaced_lut(&before, CurrentLut { resource, parameters }),
    ensures
        after.wanted_lut(ref_white, max_content, max_dest) is None,
{
}

/// Every submission waits for the one before it, and its point comes next: the work of the
/// renderer is done in the order in which it was submitted.
pub proof fn law_submissions_are_ordered(before: VulkanRenderer, after: VulkanRenderer)
    requires
        after.seq_no == before.next_submission().point,
        before.seq_no < u64::MAX - 1,
    ensures
        after.next_submission().wait_previous == Some(before.next_submission().point),
        after.next_submission().point == before.next_submission().point + 1,
{
}

/// One point for each timeline of a list: the latest of its points.
pub open spec fn latest_points(latest: Seq<TimelinePoint>, points: Seq<TimelinePoint>) -> bool {
    &&& forall|i: int, j: int|
        0 <= i < j < latest.len() ==> (#[trigger] latest[i]).timeline != (
        #[trigger] latest[j]).timeline
    &&& forall|i: int| 0 <= i < latest.len() ==> points.contains(#[trigger] latest[i])
    &&& forall|k: int|
        0 <= k < points.len() ==> covered_by(latest, #[trigger] points[k])
}

/// The list holds a point of the same timeline that is not earlier.
pub open spec fn covered_by(latest: Seq<TimelinePoint>, point: TimelinePoint) -> bool {
    exists|i: int|
        0 <= i < latest.len() && (#[trigger] latest[i]).timeline == point.timeline
            && latest[i].point >= point.point
}

/// The latest point of each timeline: waiting for it is waiting for all.
pub fn max_points(points: &Vec<TimelinePoint>) -> (latest: Vec<TimelinePoint>)
    ensures
        latest_points(latest@, points@),
{
    let mut latest: Vec<TimelinePoint> = Vec::new();
    let mut k: usize = 0;
    while k < points.len()
        invariant
            k <= points.len(),
            latest_points(latest@, points@.take(k as int)),
        decreases points.len() - k,
    {
        let point: TimelinePoint = points[k];
        let ghost before = latest@;
        let ghost seen = points@.take(k as int);
        let ghost now = points@.take(k + 1);
        let mut i: usize = 0;
        while i < latest.len() && latest[i].timeline != point.timeline
            invariant
                i <= latest@.len(),
                latest@ == before,
                forall|j: int| 0 <= j < i ==> (#[trigger] latest@[j]).timeline != point.timeline,
            decreases latest@.len() - i,
        {
            i = i + 1;
        }
        if i < latest.len() {
            if latest[i].point < point.point {
                latest.set(i, point);
            }
        } else {
            latest.push(point);
        }
        proof {
            assert(now.last() == point);
            assert(now =~= seen.push(point));
            assert(now[k as int] == point);
            assert forall|a: int| 0 <= a < latest@.len() implies now.contains(
                #[trigger] latest@[a],
            ) by {
                if a < before.len() && latest@[a] == before[a] {
                    assert(seen.contains(before[a]));
                    let m = choose|m: int| 0 <= m < seen.len() && seen[m] == before[a];
                    assert(now[m] == before[a]);
                }
            }
            assert forall|m: int| 0 <= m < now.len() implies covered_by(latest@, #[trigger] now[m]) by {
                if m < k {
                    assert(now[m] == seen[m]);
                    assert(covered_by(before, seen[m]));
                    let a = choose|a: int|
                        0 <= a < before.len() && (#[trigger] before[a]).timeline
                            == seen[m].timeline && before[a].point >= seen[m].point;
                    assert(latest@[a].timeline == seen[m].timeline && latest@[a].point
                        >= seen[m].point);
                } else {
                    assert(latest@[i as int].timeline == point.timeline && latest@[i as int].point
                        >= point.point);
                }
            }
        }
        k = k + 1;
    }
    assert(points@.take(k as int) =~= points@);
    latest
}

} // verus!
