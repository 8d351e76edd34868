//! Graphics adapters: what is shown of them, and the order in which they are
//! tried for training.

use crate::sorting::{self, sorted_order, ByKey};
use crate::text::{self, decimal_text, has_part, lower_text, same_text};
use vstd::prelude::*;

verus! {

/// The interface by which an adapter is reached.
#[derive(Debug, Clone, Copy, PartialEq, Eq, Structural)]
pub enum GpuBackend {
    Vulkan,
    Dx12,
    Metal,
    Gl,
    BrowserWebGpu,
    Noop,
}

/// The kind of an adapter.
#[derive(Debug, Clone, Copy, PartialEq, Eq, Structural)]
pub enum DeviceKind {
    Discrete,
    Integrated,
    Virtual,
    /// No GPU: a rasterizer that runs on the CPU.
    Software,
    Other,
}

/// The name of a backend.
pub open spec fn backend_label(b: GpuBackend) -> Seq<char> {
    match b {
        GpuBackend::Vulkan => "Vulkan"@,
        GpuBackend::Dx12 => "DirectX 12"@,
        GpuBackend::Metal => "Metal"@,
        GpuBackend::Gl => "OpenGL"@,
        GpuBackend::BrowserWebGpu => "WebGPU"@,
        GpuBackend::Noop => "noop"@,
    }
}

/// The name of a kind of adapter.
pub open spec fn device_label(d: DeviceKind) -> Seq<char> {
    match d {
        DeviceKind::Discrete => "discrete GPU"@,
        DeviceKind::Integrated => "integrated GPU"@,
        DeviceKind::Virtual => "virtual GPU"@,
        DeviceKind::Software => "software rasterizer"@,
        DeviceKind::Other => "unknown device"@,
    }
}

fn backend_text(b: GpuBackend) -> (t: &'static str)
    ensures
        t@ == backend_label(b),
{
    match b {
        GpuBackend::Vulkan => "Vulkan",
        GpuBackend::Dx12 => "DirectX 12",
        GpuBackend::Metal => "Metal",
        GpuBackend::Gl => "OpenGL",
        GpuBackend::BrowserWebGpu => "WebGPU",
        GpuBackend::Noop => "noop",
    }
}

fn device_text(d: DeviceKind) -> (t: &'static str)
    ensures
        t@ == device_label(d),
{
    match d {
        DeviceKind::Discrete => "discrete GPU",
        DeviceKind::Integrated => "integrated GPU",
        DeviceKind::Virtual => "virtual GPU",
        DeviceKind::Software => "software rasterizer",
        DeviceKind::Other => "unknown device",
    }
}

/// What is shown of an adapter.
#[derive(Debug)]
pub struct AdapterSummary {
    pub name: String,
    pub backend: &'static str,
    pub device_type: &'static str,
    pub discrete: bool,
}

/// An adapter's summary, with its texts as characters.
pub struct SummaryModel {
    pub name: Seq<char>,
    pub backend: Seq<char>,
    pub device_type: Seq<char>,
    pub discrete: bool,
}

impl View for AdapterSummary {
    type V = SummaryModel;

    open spec fn view(&self) -> SummaryModel {
        SummaryModel {
            name: self.name@,
            backend: self.backend@,
            device_type: self.device_type@,
            discrete: self.discrete,
        }
    }
}

/// What is shown of an adapter of the name, backend and kind.
pub fn summarize(name: String, backend: GpuBackend, device: DeviceKind) -> (s: AdapterSummary)
    ensures
        s@ == (SummaryModel {
            name: name@,
            backend: backend_label(backend),
            device_type: device_label(device),
            discrete: device == DeviceKind::Discrete,
        }),
{
    AdapterSummary {
        name,
        backend: backend_text(backend),
        device_type: device_text(device),
        discrete: device == DeviceKind::Discrete,
    }
}

/// The adapters of a machine, the most useful first.
#[derive(Debug)]
pub struct GpuReport {
    pub adapters: Vec<AdapterSummary>,
}

/// Is the adapter a software rasterizer?
pub open spec fn is_software(s: SummaryModel) -> bool {
    s.device_type == "software rasterizer"@
}

/// How an adapter ranks: discrete ones first, software last among the others.
pub open spec fn summary_rank(s: SummaryModel) -> int {
    (if s.discrete {
        0int
    } else {
        2
    }) + if is_software(s) {
        1int
    } else {
        0
    }
}

/// The summaries as their models.
pub open spec fn summary_views(s: Seq<AdapterSummary>) -> Seq<SummaryModel> {
    s.map_values(|a: AdapterSummary| a@)
}

fn copy_summary(s: &AdapterSummary) -> (out: AdapterSummary)
    ensures
        out@ == s@,
{
    AdapterSummary {
        name: s.name.clone(),
        backend: s.backend,
        device_type: s.device_type,
        discrete: s.discrete,
    }
}

/// A report of the adapters that were found, the most useful first and equal
/// ones as they were found.
pub fn report_adapters(found: &Vec<AdapterSummary>) -> (r: GpuReport)
    ensures
        summary_views(r.adapters@).to_multiset() == summary_views(found@).to_multiset(),
        r.adapters@.len() == found@.len(),
        forall|a: int, b: int|
            0 <= a < b < r.adapters@.len() ==> summary_rank((#[trigger] r.adapters@[a])@)
                <= summary_rank((#[trigger] r.adapters@[b])@),
        exists|order: Seq<usize>|
            summary_views(r.adapters@) == sorting::arranged(summary_views(found@), order)
                && #[trigger] stable_ranks(found@, order),
{
    let mut keys: Vec<i64> = Vec::new();
    for i in 0..found.len()
        invariant
            keys@.len() == i,
            forall|k: int| 0 <= k < i ==> #[trigger] keys@[k] == summary_rank(found@[k]@),
    {
        let software = same_text(found[i].device_type, "software rasterizer");
        let rank: i64 = if found[i].discrete {
            0
        } else {
            2
        };
        keys.push(
            if software {
                rank + 1
            } else {
                rank
            },
        );
    }
    let by_key = ByKey { keys };
    let order = sorted_order(&by_key);
    let ghost all = summary_views(found@);
    let mut adapters: Vec<AdapterSummary> = Vec::new();
    for k in 0..order.len()
        invariant
            all == summary_views(found@),
            by_key.keys@.len() == found@.len(),
            sorting::in_order(&by_key, order@, 0, found@.len() as int),
            summary_views(adapters@) == sorting::arranged(all, order@).take(k as int),
    {
        let ghost before = summary_views(adapters@);
        assert(order@[k as int] < found@.len());
        adapters.push(copy_summary(&found[order[k]]));
        assert(summary_views(adapters@) =~= before.push(all[order@[k as int] as int]));
        assert(sorting::arranged(all, order@).take(k as int + 1) =~= before.push(
            all[order@[k as int] as int],
        ));
    }
    proof {
        let placed = sorting::arranged(all, order@);
        assert(placed.take(order@.len() as int) =~= placed);
        sorting::order_lists_each_once(&by_key, order@, found@.len() as int);
        sorting::arranged_keeps_items(all, order@);
        assert forall|a: int, b: int| 0 <= a < b < adapters@.len() implies summary_rank(
            (#[trigger] adapters@[a])@,
        ) <= summary_rank((#[trigger] adapters@[b])@) by {
            assert(summary_views(adapters@)[a] == adapters@[a]@);
            assert(summary_views(adapters@)[b] == adapters@[b]@);
            assert(sorting::comes_before(&by_key, order@[a] as int, order@[b] as int));
        }
        assert forall|a: int, b: int| 0 <= a < b < order@.len() implies rank_before(
            found@,
            #[trigger] order@[a] as int,
            #[trigger] order@[b] as int,
        ) by {
            assert(sorting::comes_before(&by_key, order@[a] as int, order@[b] as int));
        }
        assert(stable_ranks(found@, order@));
    }
    GpuReport { adapters }
}

/// Does adapter `i` go before adapter `j`: by rank, and as found where the
/// ranks are equal?
pub open spec fn rank_before(found: Seq<AdapterSummary>, i: int, j: int) -> bool {
    summary_rank(found[i]@) < summary_rank(found[j]@) || (summary_rank(found[i]@) == summary_rank(
        found[j]@,
    ) && i < j)
}

/// Does the list hold each adapter once, in order of rank and else as found?
pub open spec fn stable_ranks(found: Seq<AdapterSummary>, order: Seq<usize>) -> bool {
    &&& sorting::each_once(order, found.len() as int)
    &&& forall|a: int, b: int|
        0 <= a < b < order.len() ==> rank_before(
            found,
            #[trigger] order[a] as int,
            #[trigger] order[b] as int,
        )
}

impl GpuReport {
    /// The most useful adapter.
    pub fn best(&self) -> (a: Option<&AdapterSummary>)
        ensures
            match a {
                Some(s) => self.adapters@.len() > 0 && *s == self.adapters@[0],
                None => self.adapters@.len() == 0,
            },
    {
        if self.adapters.len() > 0 {
            Some(&self.adapters[0])
        } else {
            None
        }
    }

    /// Is there an adapter that is no software rasterizer?
    pub fn has_usable_gpu(&self) -> (b: bool)
        ensures
            b == exists|i: int| 0 <= i < self.adapters@.len() && usable(#[trigger] self.adapters@[i]),
    {
        for i in 0..self.adapters.len()
            invariant
                forall|k: int| 0 <= k < i ==> !usable(#[trigger] self.adapters@[k]),
        {
            if !same_text(self.adapters[i].device_type, "software rasterizer") {
                assert(usable(self.adapters@[i as int]));
                return true;
            }
        }
        false
    }

    /// Is there an adapter by NVIDIA, going by its name?
    pub fn has_nvidia(&self) -> (b: bool)
        ensures
            b == exists|i: int|
                0 <= i < self.adapters@.len() && by_nvidia(#[trigger] self.adapters@[i]),
    {
        for i in 0..self.adapters.len()
            invariant
                forall|k: int| 0 <= k < i ==> !by_nvidia(#[trigger] self.adapters@[k]),
        {
            if has_part(lower_text(self.adapters[i].name.as_str()).as_str(), "nvidia") {
                assert(by_nvidia(self.adapters@[i as int]));
                return true;
            }
        }
        false
    }
}

/// Is the adapter no software rasterizer?
pub open spec fn usable(a: AdapterSummary) -> bool {
    !is_software(a@)
}

/// Does the adapter's name say that it is by NVIDIA?
pub open spec fn by_nvidia(a: AdapterSummary) -> bool {
    text::contains(text::lower(a.name@), "nvidia"@)
}

/// Where adapters stand in order of rank and one of them is a real GPU, the
/// first one is: no software rasterizer is shown before it.
pub proof fn best_is_usable(adapters: Seq<AdapterSummary>, i: int)
    requires
        forall|a: int, b: int|
            0 <= a < b < adapters.len() ==> summary_rank((#[trigger] adapters[a])@) <= summary_rank(
                (#[trigger] adapters[b])@,
            ),
        forall|a: int|
            0 <= a < adapters.len() ==> ((#[trigger] adapters[a]).discrete ==> usable(adapters[a])),
        0 <= i < adapters.len(),
        usable(adapters[i]),
    ensures
        usable(adapters[0]),
{
    if i > 0 {
        assert(summary_rank(adapters[0]@) <= summary_rank(adapters[i]@));
    }
}

/// The system that the program runs on.
#[derive(Debug, Clone, Copy, PartialEq, Eq, Structural)]
pub enum System {
    Windows,
    MacOs,
    Linux,
}

/// Which backend the user wants.
#[derive(Debug, Clone, Copy, PartialEq, Eq, Structural)]
pub enum BackendChoice {
    /// Every backend, the most reliable first.
    Auto,
    Vulkan,
    Dx12,
    Metal,
    Gl,
}

/// The choice that a word stands for, letters in any case.
pub open spec fn choice_named(s: Seq<char>) -> Option<BackendChoice> {
    let l = text::lower(s);
    if l == "auto"@ {
        Some(BackendChoice::Auto)
    } else if l == "vulkan"@ {
        Some(BackendChoice::Vulkan)
    } else if l == "dx12"@ {
        Some(BackendChoice::Dx12)
    } else if l == "metal"@ {
        Some(BackendChoice::Metal)
    } else if l == "gl"@ {
        Some(BackendChoice::Gl)
    } else {
        None
    }
}

impl BackendChoice {
    /// The choice that `s` names.
    pub fn from_str(s: &str) -> (r: Result<BackendChoice, String>)
        ensures
            match r {
                Ok(c) => choice_named(s@) == Some(c),
                Err(e) => choice_named(s@) is None && e@ == "unknown GPU backend '"@ + text::lower(
                    s@,
                ) + "' (expected auto|vulkan|dx12|metal|gl)"@,
            },
    {
        let l = lower_text(s);
        if same_text(l.as_str(), "auto") {
            Ok(BackendChoice::Auto)
        } else if same_text(l.as_str(), "vulkan") {
            Ok(BackendChoice::Vulkan)
        } else if same_text(l.as_str(), "dx12") {
            Ok(BackendChoice::Dx12)
        } else if same_text(l.as_str(), "metal") {
            Ok(BackendChoice::Metal)
        } else if same_text(l.as_str(), "gl") {
            Ok(BackendChoice::Gl)
        } else {
            let mut e = "unknown GPU backend '".to_owned();
            e.append(l.as_str());
            e.append("' (expected auto|vulkan|dx12|metal|gl)");
            Err(e)
        }
    }
}

/// Where a backend stands among those that are tried; `None` if it is not.
pub open spec fn backend_place(b: GpuBackend, choice: BackendChoice, system: System) -> Option<
    int,
> {
    match choice {
        BackendChoice::Auto => match (system, b) {
            (System::Windows, GpuBackend::Vulkan) => Some(0),
            (System::Windows, GpuBackend::Dx12) => Some(1),
            (System::Windows, GpuBackend::Gl) => Some(2),
            (System::MacOs, GpuBackend::Metal) => Some(0),
            (System::Linux, GpuBackend::Vulkan) => Some(0),
            (System::Linux, GpuBackend::Gl) => Some(1),
            _ => None,
        },
        BackendChoice::Vulkan => if b == GpuBackend::Vulkan {
            Some(0)
        } else {
            None
        },
        BackendChoice::Dx12 => if b == GpuBackend::Dx12 {
            Some(0)
        } else {
            None
        },
        BackendChoice::Metal => if b == GpuBackend::Metal {
            Some(0)
        } else {
            None
        },
        BackendChoice::Gl => if b == GpuBackend::Gl {
            Some(0)
        } else {
            None
        },
    }
}

/// How a kind of adapter ranks within a backend.
pub open spec fn device_place(d: DeviceKind) -> int {
    match d {
        DeviceKind::Discrete => 0,
        DeviceKind::Integrated => 1,
        DeviceKind::Virtual => 2,
        DeviceKind::Other => 3,
        DeviceKind::Software => 4,
    }
}

/// An adapter that may be tried.
#[derive(Debug)]
pub struct Candidate {
    pub name: String,
    pub backend: GpuBackend,
    pub device: DeviceKind,
}

impl Candidate {
    /// The adapter in words.
    pub fn describe(&self) -> (t: String)
        ensures
            t@ == candidate_text(*self),
    {
        let mut t = self.name.clone();
        t.append(" (");
        t.append(backend_text(self.backend));
        t.append(", ");
        t.append(device_text(self.device));
        t.append(")");
        t
    }
}

/// An adapter in words.
pub open spec fn candidate_text(c: Candidate) -> Seq<char> {
    c.name@ + " ("@ + backend_label(c.backend) + ", "@ + device_label(c.device) + ")"@
}

fn place_of_backend(b: GpuBackend, choice: BackendChoice, system: System) -> (p: Option<i64>)
    ensures
        (match p {
            Some(x) => Some(x as int),
            None => None,
        }) == backend_place(b, choice, system),
        p matches Some(x) ==> 0 <= x <= 2,
{
    match choice {
        BackendChoice::Auto => match (system, b) {
            (System::Windows, GpuBackend::Vulkan) => Some(0),
            (System::Windows, GpuBackend::Dx12) => Some(1),
            (System::Windows, GpuBackend::Gl) => Some(2),
            (System::MacOs, GpuBackend::Metal) => Some(0),
            (System::Linux, GpuBackend::Vulkan) => Some(0),
            (System::Linux, GpuBackend::Gl) => Some(1),
            _ => None,
        },
        BackendChoice::Vulkan => if b == GpuBackend::Vulkan {
            Some(0)
        } else {
            None
        },
        BackendChoice::Dx12 => if b == GpuBackend::Dx12 {
            Some(0)
        } else {
            None
        },
        BackendChoice::Metal => if b == GpuBackend::Metal {
            Some(0)
        } else {
            None
        },
        BackendChoice::Gl => if b == GpuBackend::Gl {
            Some(0)
        } else {
            None
        },
    }
}

fn place_of_device(d: DeviceKind) -> (p: i64)
    ensures
        p == device_place(d),
        0 <= p <= 4,
{
    match d {
        DeviceKind::Discrete => 0,
        DeviceKind::Integrated => 1,
        DeviceKind::Virtual => 2,
        DeviceKind::Other => 3,
        DeviceKind::Software => 4,
    }
}

/// Is the adapter reached by a backend that is tried?
pub open spec fn on_ladder(c: Candidate, choice: BackendChoice, system: System) -> bool {
    backend_place(c.backend, choice, system) is Some
}

/// Does the first adapter stand before the second: by backend, and by kind
/// within a backend?
pub open spec fn tried_before(
    a: Candidate,
    b: Candidate,
    choice: BackendChoice,
    system: System,
) -> bool {
    let (x, y) = (
        backend_place(a.backend, choice, system)->0,
        backend_place(b.backend, choice, system)->0,
    );
    x < y || (x == y && device_place(a.device) <= device_place(b.device))
}

/// The order in which adapters are tried: their numbers, of those that a tried
/// backend reaches.
pub fn ladder(found: &Vec<Candidate>, choice: BackendChoice, system: System) -> (order: Vec<usize>)
    ensures
        forall|k: int|
            0 <= k < order@.len() ==> (#[trigger] order@[k]) < found@.len() && on_ladder(
                found@[order@[k] as int],
                choice,
                system,
            ),
        forall|i: int|
            0 <= i < found@.len() && on_ladder(found@[i], choice, system)
                ==> #[trigger] sorting::listed(order@, i),
        forall|a: int, b: int|
            0 <= a < b < order@.len() ==> #[trigger] order@[a] != #[trigger] order@[b]
                && tried_before(
                found@[order@[a] as int],
                found@[order@[b] as int],
                choice,
                system,
            ) && (tried_before(
                found@[order@[b] as int],
                found@[order@[a] as int],
                choice,
                system,
            ) ==> order@[a] < order@[b]),
{
    let mut keys: Vec<i64> = Vec::new();
    let mut numbers: Vec<usize> = Vec::new();
    for i in 0..found.len()
        invariant
            keys@.len() == numbers@.len(),
            forall|k: int|
                0 <= k < numbers@.len() ==> (#[trigger] numbers@[k]) < i && on_ladder(
                    found@[numbers@[k] as int],
                    choice,
                    system,
                ) && keys@[k] == ladder_key(found@[numbers@[k] as int], choice, system),
            forall|a: int, b: int|
                0 <= a < b < numbers@.len() ==> #[trigger] numbers@[a] < #[trigger] numbers@[b],
            forall|j: int|
                0 <= j < i && on_ladder(found@[j], choice, system) ==> #[trigger] sorting::listed(
                    numbers@,
                    j,
                ),
    {
        match place_of_backend(found[i].backend, choice, system) {
            Some(place) => {
                let ghost before = numbers@;
                keys.push(place * 8 + place_of_device(found[i].device));
                numbers.push(i);
                proof {
                    let last = before.len() as int;
                    assert(numbers@[last] == i);
                    assert forall|j: int|
                        0 <= j < i + 1 && on_ladder(found@[j], choice, system) implies #[trigger] sorting::listed(
                        numbers@,
                        j,
                    ) by {
                        if j < i {
                            assert(sorting::listed(before, j));
                            let a = choose|a: int|
                                0 <= a < before.len() && #[trigger] before[a] == j;
                            assert(numbers@[a] == j);
                        }
                    }
                }
            },
            None => {},
        }
    }
    let by_key = ByKey { keys };
    let sorted = sorted_order(&by_key);
    let mut order: Vec<usize> = Vec::new();
    for k in 0..sorted.len()
        invariant
            order@.len() == k,
            by_key.keys@.len() == numbers@.len(),
            sorting::in_order(&by_key, sorted@, 0, numbers@.len() as int),
            forall|a: int| 0 <= a < k ==> #[trigger] order@[a] == numbers@[sorted@[a] as int],
    {
        assert(sorted@[k as int] < numbers@.len());
        order.push(numbers[sorted[k]]);
    }
    proof {
        sorting::order_lists_each_once(&by_key, sorted@, numbers@.len() as int);
        assert forall|k: int| 0 <= k < order@.len() implies (#[trigger] order@[k]) < found@.len()
            && on_ladder(found@[order@[k] as int], choice, system) by {
            assert(sorted@[k] < numbers@.len());
            assert(numbers@[sorted@[k] as int] == order@[k]);
        }
        assert forall|i: int|
            0 <= i < found@.len() && on_ladder(found@[i], choice, system) implies #[trigger] sorting::listed(
            order@,
            i,
        ) by {
            assert(sorting::listed(numbers@, i));
            let a = choose|a: int| 0 <= a < numbers@.len() && #[trigger] numbers@[a] == i;
            assert(sorting::listed(sorted@, a));
            let b = choose|b: int| 0 <= b < sorted@.len() && #[trigger] sorted@[b] == a;
            assert(order@[b] == i);
        }
        assert forall|a: int, b: int| 0 <= a < b < order@.len() implies #[trigger] order@[a]
            != #[trigger] order@[b] && tried_before(
            found@[order@[a] as int],
            found@[order@[b] as int],
            choice,
            system,
        ) && (tried_before(
            found@[order@[b] as int],
            found@[order@[a] as int],
            choice,
            system,
        ) ==> order@[a] < order@[b]) by {
            let (x, y) = (sorted@[a] as int, sorted@[b] as int);
            assert(order@[a] == numbers@[x] && order@[b] == numbers@[y]);
            assert(sorting::comes_before(&by_key, sorted@[a] as int, sorted@[b] as int));
            if x < y {
                assert(numbers@[x] < numbers@[y]);
            } else {
                assert(numbers@[y] < numbers@[x]);
            }
        }
    }
    order
}

/// The place of an adapter as one number.
spec fn ladder_key(c: Candidate, choice: BackendChoice, system: System) -> int {
    backend_place(c.backend, choice, system)->0 * 8 + device_place(c.device)
}

/// How the user narrows the choice of an adapter.
#[derive(Debug, Clone, Copy)]
pub struct GpuOptions {
    pub backend: BackendChoice,
    /// The one adapter to try, by its place in the order.
    pub index: Option<usize>,
    pub allow_software: bool,
}

/// May the adapter at a place of the order be tried: it is the one that the user
/// pinned, if any, and no software rasterizer unless the user allows those?
pub open spec fn may_try(order: Seq<Candidate>, k: int, opts: GpuOptions) -> bool {
    &&& 0 <= k < order.len()
    &&& opts.index matches Some(i) ==> k == i
    &&& order[k].device == DeviceKind::Software ==> opts.allow_software
}

/// The next place of the order, from `from` on, whose adapter may be tried.
/// Where bringing one up fails, the search goes on behind it.
pub fn next_candidate(order: &Vec<Candidate>, from: usize, opts: &GpuOptions) -> (k: Option<usize>)
    ensures
        match k {
            Some(i) => from <= i && may_try(order@, i as int, *opts) && forall|j: int|
                from <= j < i ==> !#[trigger] may_try(order@, j, *opts),
            None => forall|j: int| from <= j ==> !#[trigger] may_try(order@, j, *opts),
        },
{
    let n: usize = order.len();
    let mut i: usize = from;
    while i < n
        invariant
            from <= i,
            n == order@.len(),
            forall|j: int| from <= j < i ==> !#[trigger] may_try(order@, j, *opts),
        decreases n - i,
    {
        let pinned = match opts.index {
            Some(p) => p == i,
            None => true,
        };
        if pinned && (order[i].device != DeviceKind::Software || opts.allow_software) {
            assert(may_try(order@, i as int, *opts));
            return Some(i);
        }
        assert(!may_try(order@, i as int, *opts));
        i += 1;
    }
    None
}

/// What is printed beside an adapter: which one is used, and which ones take the
/// user's leave.
pub open spec fn mark(order: Seq<Candidate>, k: int) -> Seq<char> {
    if order[k].device == DeviceKind::Software {
        "(software — needs --allow-software)"@
    } else if forall|j: int| 0 <= j < k ==> (#[trigger] order[j]).device == DeviceKind::Software {
        "→ would use"@
    } else {
        ""@
    }
}

/// The line that is printed for an adapter.
pub open spec fn doctor_line(order: Seq<Candidate>, k: int) -> Seq<char> {
    "  ["@ + text::decimal(k as nat) + "] "@ + candidate_text(order[k]) + " "@ + mark(order, k)
}

/// The lines that are printed for the adapters, in the order in which they are
/// tried.
pub fn doctor_lines(order: &Vec<Candidate>) -> (lines: Vec<String>)
    ensures
        text::views(lines@) == Seq::new(order@.len(), |k: int| doctor_line(order@, k)),
{
    let mut lines: Vec<String> = Vec::new();
    let mut chosen = false;
    let ghost want = Seq::new(order@.len(), |k: int| doctor_line(order@, k));
    for k in 0..order.len()
        invariant
            want == Seq::new(order@.len(), |k: int| doctor_line(order@, k)),
            text::views(lines@) == want.take(k as int),
            !chosen == forall|j: int|
                0 <= j < k ==> (#[trigger] order@[j]).device == DeviceKind::Software,
    {
        let mut t = "  [".to_owned();
        t.append(decimal_text(k as u64).as_str());
        t.append("] ");
        t.append(order[k].describe().as_str());
        t.append(" ");
        let was_chosen = chosen;
        if order[k].device == DeviceKind::Software {
            t.append("(software — needs --allow-software)");
        } else if !chosen {
            chosen = true;
            assert(order@[k as int].device != DeviceKind::Software);
            t.append("→ would use");
        } else {
            t.append("");
        }
        let ghost before = text::views(lines@);
        lines.push(t);
        proof {
            if was_chosen {
                let j = choose|j: int|
                    0 <= j < k && (#[trigger] order@[j]).device != DeviceKind::Software;
                assert(order@[j].device != DeviceKind::Software);
            }
        }
        assert(text::views(lines@) =~= before.push(doctor_line(order@, k as int)));
        assert(want.take(k as int + 1) =~= before.push(doctor_line(order@, k as int)));
    }
    assert(want.take(order@.len() as int) =~= want);
    lines
}

/// Is every adapter a software rasterizer?
pub open spec fn all_software(order: Seq<Candidate>) -> bool {
    forall|k: int| 0 <= k < order.len() ==> (#[trigger] order[k]).device == DeviceKind::Software
}

/// All that is printed of a machine's adapters.
pub open spec fn doctor_report_of(order: Seq<Candidate>) -> Seq<Seq<char>> {
    if order.len() == 0 {
        seq![
            "GPU: no adapters found — training will not work on this machine.\nTraining needs Vulkan, DirectX 12, Metal or OpenGL via your normal\ngraphics driver (any vendor, no CUDA). Updating the driver usually\nfixes this. Mesh extraction (--mesh-only) works without a GPU."@,
        ]
    } else {
        seq!["GPU adapters, in selection order (pin one with --gpu-index N):"@] + Seq::new(
            order.len(),
            |k: int| doctor_line(order, k),
        ) + if all_software(order) {
            seq![
                "  Only software rasterizers found; training requires --allow-software (very slow)."@,
            ]
        } else {
            Seq::empty()
        }
    }
}

/// All that is printed of a machine's adapters, in the order in which they are
/// tried.
pub fn doctor_report(order: &Vec<Candidate>) -> (lines: Vec<String>)
    ensures
        text::views(lines@) == doctor_report_of(order@),
{
    let mut lines: Vec<String> = Vec::new();
    if order.len() == 0 {
        lines.push(
            "GPU: no adapters found — training will not work on this machine.\nTraining needs Vulkan, DirectX 12, Metal or OpenGL via your normal\ngraphics driver (any vendor, no CUDA). Updating the driver usually\nfixes this. Mesh extraction (--mesh-only) works without a GPU.".to_owned(),
        );
        assert(text::views(lines@) =~= doctor_report_of(order@));
        return lines;
    }
    lines.push("GPU adapters, in selection order (pin one with --gpu-index N):".to_owned());
    let adapters = doctor_lines(order);
    let ghost head = text::views(lines@);
    let ghost body = text::views(adapters@);
    assert(body.len() == adapters@.len());
    let mut software = true;
    for k in 0..order.len()
        invariant
            body == text::views(adapters@),
            adapters@.len() == order@.len(),
            text::views(lines@) == head + body.take(k as int),
            software == forall|j: int|
                0 <= j < k ==> (#[trigger] order@[j]).device == DeviceKind::Software,
    {
        let ghost before = text::views(lines@);
        lines.push(adapters[k].clone());
        assert(text::views(lines@) =~= before.push(body[k as int]));
        assert(head + body.take(k as int + 1) =~= before.push(body[k as int]));
        if order[k].device != DeviceKind::Software {
            assert(order@[k as int].device != DeviceKind::Software);
            software = false;
        }
    }
    assert(body.take(order@.len() as int) =~= body);
    assert(software == all_software(order@));
    let ghost known = text::views(lines@);
    if software {
        lines.push(
            "  Only software rasterizers found; training requires --allow-software (very slow).".to_owned(),
        );
        assert(text::views(lines@) =~= known.push(text::views(lines@).last()));
    }
    assert(text::views(lines@) =~= doctor_report_of(order@));
    lines
}

/// Without the user's leave no software rasterizer is tried.
pub proof fn software_needs_leave(order: Seq<Candidate>, k: int, opts: GpuOptions)
    requires
        may_try(order, k, opts),
        !opts.allow_software,
    ensures
        order[k].device != DeviceKind::Software,
{
}

/// A broken adapter does not end the search: as long as no adapter is pinned,
/// any later one that may be tried is.
pub proof fn failure_falls_through(order: Seq<Candidate>, failed: int, k: int, opts: GpuOptions)
    requires
        opts.index is None,
        may_try(order, failed, opts),
        failed < k < order.len(),
        order[k].device != DeviceKind::Software,
    ensures
        may_try(order, k, opts),
{
}

} // verus!
