//! What holds of the order in which adapters are shown and tried.

use crate::gpu::{
    self, AdapterSummary, BackendChoice, Candidate, DeviceKind, GpuBackend, GpuOptions,
    SummaryModel, System,
};
use crate::text;
use vstd::prelude::*;

verus! {

/// The words for the backends, in letters of any case, and no others.
pub proof fn choices_are_told_by_word(s: Seq<char>)
    ensures
        gpu::choice_named(s) == Some(BackendChoice::Auto) <==> text::lower(s) == "auto"@,
        gpu::choice_named(s) == Some(BackendChoice::Vulkan) <==> text::lower(s) == "vulkan"@,
        gpu::choice_named(s) == Some(BackendChoice::Dx12) <==> text::lower(s) == "dx12"@,
        gpu::choice_named(s) == Some(BackendChoice::Metal) <==> text::lower(s) == "metal"@,
        gpu::choice_named(s) == Some(BackendChoice::Gl) <==> text::lower(s) == "gl"@,
{
    reveal_strlit("auto");
    reveal_strlit("vulkan");
    reveal_strlit("dx12");
    reveal_strlit("metal");
    reveal_strlit("gl");
    assert("auto"@.len() == 4 && "vulkan"@.len() == 6 && "dx12"@.len() == 4 && "metal"@.len() == 5
        && "gl"@.len() == 2);
    assert("auto"@[0] != "dx12"@[0]);
}

/// Discrete adapters are shown before all others, and software rasterizers
/// behind all others.
pub proof fn discrete_adapters_are_shown_first(a: SummaryModel, b: SummaryModel)
    requires
        a.discrete ==> a.device_type != "software rasterizer"@,
        b.discrete ==> b.device_type != "software rasterizer"@,
    ensures
        a.discrete && !b.discrete ==> gpu::summary_rank(a) < gpu::summary_rank(b),
        a.device_type != "software rasterizer"@ && b.device_type == "software rasterizer"@
            ==> gpu::summary_rank(a) < gpu::summary_rank(b),
        a.discrete == b.discrete && (a.device_type == "software rasterizer"@) == (b.device_type
            == "software rasterizer"@) ==> gpu::summary_rank(a) == gpu::summary_rank(b),
{
}

/// An adapter is usable unless it is a software rasterizer, and by NVIDIA if its
/// name says so in letters of any case.
pub proof fn adapters_are_told_by_their_names(a: AdapterSummary)
    ensures
        gpu::usable(a) <==> a.device_type@ != "software rasterizer"@,
        gpu::by_nvidia(a) <==> text::contains(text::lower(a.name@), "nvidia"@),
{
}

/// Of itself, Vulkan is tried first and OpenGL last on Windows and Linux, DirectX
/// between them on Windows, and Metal alone on macOS.
pub proof fn reliable_backends_are_tried_first(b: GpuBackend, system: System)
    ensures
        ({
            let place = gpu::backend_place(b, BackendChoice::Auto, system);
            let last = gpu::backend_place(GpuBackend::Gl, BackendChoice::Auto, system);
            let first = gpu::backend_place(GpuBackend::Vulkan, BackendChoice::Auto, system);
            &&& place is Some <==> match system {
                System::Windows => b == GpuBackend::Vulkan || b == GpuBackend::Dx12 || b
                    == GpuBackend::Gl,
                System::MacOs => b == GpuBackend::Metal,
                System::Linux => b == GpuBackend::Vulkan || b == GpuBackend::Gl,
            }
            &&& !(system is MacOs) ==> first is Some && last is Some
            &&& !(system is MacOs) && place is Some && b != GpuBackend::Vulkan ==> first->0
                < place->0
            &&& !(system is MacOs) && place is Some && b != GpuBackend::Gl ==> place->0 < last->0
        }),
{
}

/// A backend that the user chooses is tried, and no other, on every system.
pub proof fn chosen_backend_is_tried_alone(b: GpuBackend, system: System)
    ensures
        gpu::backend_place(b, BackendChoice::Vulkan, system) is Some <==> b == GpuBackend::Vulkan,
        gpu::backend_place(b, BackendChoice::Dx12, system) is Some <==> b == GpuBackend::Dx12,
        gpu::backend_place(b, BackendChoice::Metal, system) is Some <==> b == GpuBackend::Metal,
        gpu::backend_place(b, BackendChoice::Gl, system) is Some <==> b == GpuBackend::Gl,
{
}

/// Within a backend, discrete adapters go first, then integrated ones, virtual
/// ones, unknown ones and software rasterizers; and kind does not count between
/// backends.
pub proof fn kinds_are_tried_in_turn(a: Candidate, b: Candidate, choice: BackendChoice, s: System)
    requires
        gpu::on_ladder(a, choice, s),
        gpu::on_ladder(b, choice, s),
    ensures
        gpu::device_place(DeviceKind::Discrete) < gpu::device_place(DeviceKind::Integrated)
            < gpu::device_place(DeviceKind::Virtual) < gpu::device_place(DeviceKind::Other)
            < gpu::device_place(DeviceKind::Software),
        a.backend == b.backend ==> (gpu::tried_before(a, b, choice, s) <==> gpu::device_place(
            a.device,
        ) <= gpu::device_place(b.device)),
        a.backend != b.backend ==> (gpu::tried_before(a, b, choice, s) <==> (
        gpu::backend_place(a.backend, choice, s)->0) < (gpu::backend_place(
            b.backend,
            choice,
            s,
        )->0)),
{
}

/// An adapter is tried if it is the one that the user pinned, or none is pinned,
/// and if it is no software rasterizer, or the user allows those.
pub proof fn pinned_adapters_are_tried_alone(order: Seq<Candidate>, k: int, opts: GpuOptions)
    requires
        0 <= k < order.len(),
    ensures
        gpu::may_try(order, k, opts) <==> (opts.index is None || opts.index->0 == k) && (
        opts.allow_software || !(order[k].device is Software)),
{
}

/// Each adapter is printed with its place, its name, its backend and its kind,
/// and the first real one is marked as the one in use.
pub proof fn first_real_adapter_is_marked(order: Seq<Candidate>, k: int)
    requires
        0 <= k < order.len(),
    ensures
        gpu::doctor_line(order, k) == "  ["@ + text::decimal(k as nat) + "] "@ + (order[k].name@
            + " ("@ + gpu::backend_label(order[k].backend) + ", "@ + gpu::device_label(
            order[k].device,
        ) + ")"@) + " "@ + gpu::mark(order, k),
        order[k].device is Software ==> gpu::mark(order, k)
            == "(software — needs --allow-software)"@,
        !(order[k].device is Software) && (forall|j: int|
            0 <= j < k ==> (#[trigger] order[j]).device is Software) ==> gpu::mark(order, k)
            == "→ would use"@,
        !(order[k].device is Software) && !(forall|j: int|
            0 <= j < k ==> (#[trigger] order[j]).device is Software) ==> gpu::mark(order, k) == ""@,
{
}

/// Backends and kinds are called by these names.
pub proof fn adapters_are_called_by_name()
    ensures
        gpu::backend_label(GpuBackend::Vulkan) == "Vulkan"@,
        gpu::backend_label(GpuBackend::Dx12) == "DirectX 12"@,
        gpu::backend_label(GpuBackend::Metal) == "Metal"@,
        gpu::backend_label(GpuBackend::Gl) == "OpenGL"@,
        gpu::backend_label(GpuBackend::BrowserWebGpu) == "WebGPU"@,
        gpu::backend_label(GpuBackend::Noop) == "noop"@,
        gpu::device_label(DeviceKind::Discrete) == "discrete GPU"@,
        gpu::device_label(DeviceKind::Integrated) == "integrated GPU"@,
        gpu::device_label(DeviceKind::Virtual) == "virtual GPU"@,
        gpu::device_label(DeviceKind::Software) == "software rasterizer"@,
        gpu::device_label(DeviceKind::Other) == "unknown device"@,
{
}

/// Every adapter is printed on a line of its own, in order, under a headline; a last
/// line warns if all of them are software rasterizers; and where there is none, that
/// is all that is said.
pub proof fn every_adapter_is_printed(order: Seq<Candidate>, k: int)
    ensures
        order.len() == 0 ==> gpu::doctor_report_of(order).len() == 1
            && "GPU: no adapters found"@.is_prefix_of(gpu::doctor_report_of(order)[0]),
        order.len() > 0 ==> {
            let lines = gpu::doctor_report_of(order);
            let warned = !exists|j: int|
                0 <= j < order.len() && !((#[trigger] order[j]).device is Software);
            &&& lines[0] == "GPU adapters, in selection order (pin one with --gpu-index N):"@
            &&& 0 <= k < order.len() ==> lines[k + 1] == gpu::doctor_line(order, k)
            &&& !warned ==> lines.len() == order.len() + 1
            &&& warned ==> lines.len() == order.len() + 2 && lines.last()
                == "  Only software rasterizers found; training requires --allow-software (very slow)."@
        },
{
    reveal_strlit("GPU: no adapters found");
    reveal_strlit(
        "GPU: no adapters found — training will not work on this machine.\nTraining needs Vulkan, DirectX 12, Metal or OpenGL via your normal\ngraphics driver (any vendor, no CUDA). Updating the driver usually\nfixes this. Mesh extraction (--mesh-only) works without a GPU.",
    );
    if order.len() == 0 {
        let head = "GPU: no adapters found"@;
        assert(head =~= gpu::doctor_report_of(order)[0].subrange(0, head.len() as int));
    } else {
        if gpu::all_software(order) {
            assert(!exists|j: int|
                0 <= j < order.len() && !((#[trigger] order[j]).device is Software));
        } else {
            let j = choose|j: int|
                0 <= j < order.len() && (#[trigger] order[j]).device != DeviceKind::Software;
            assert(!(order[j].device is Software));
        }
    }
}

/// Adapters of one rank are shown as they were found.
pub proof fn equal_adapters_keep_their_order(
    found: Seq<AdapterSummary>,
    order: Seq<usize>,
    a: int,
    b: int,
)
    requires
        gpu::stable_ranks(found, order),
        0 <= a < b < order.len(),
    ensures
        gpu::summary_rank(found[order[a] as int]@) <= gpu::summary_rank(found[order[b] as int]@),
        gpu::summary_rank(found[order[a] as int]@) == gpu::summary_rank(found[order[b] as int]@)
            ==> order[a] < order[b],
        order.len() == found.len(),
        order[a] < found.len(),
        order[a] != order[b],
{
    assert(gpu::rank_before(found, order[a] as int, order[b] as int));
}

/// Summaries are seen with their own texts, each in its place.
pub proof fn summaries_are_seen_as_they_are(s: Seq<AdapterSummary>, k: int)
    requires
        0 <= k < s.len(),
    ensures
        gpu::summary_views(s).len() == s.len(),
        gpu::summary_views(s)[k].name == s[k].name@,
        gpu::summary_views(s)[k].backend == s[k].backend@,
        gpu::summary_views(s)[k].device_type == s[k].device_type@,
        gpu::summary_views(s)[k].discrete == s[k].discrete,
{
}

} // verus!
