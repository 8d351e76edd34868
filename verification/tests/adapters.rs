//! Graphics adapters and the order in which they are tried.

use meshsplat::gpu::{
    doctor_lines, doctor_report, ladder, next_candidate, report_adapters, summarize, BackendChoice,
    Candidate, DeviceKind, GpuBackend, GpuOptions, GpuReport, System,
};

fn adapter(name: &str, backend: GpuBackend, device: DeviceKind) -> Candidate {
    Candidate {
        name: name.to_owned(),
        backend,
        device,
    }
}

fn usual() -> GpuOptions {
    GpuOptions {
        backend: BackendChoice::Auto,
        index: None,
        allow_software: false,
    }
}

#[test]
fn adapters_are_summarized() {
    let s = summarize("RTX".to_owned(), GpuBackend::Dx12, DeviceKind::Discrete);
    assert_eq!(
        (s.name.as_str(), s.backend, s.device_type, s.discrete),
        ("RTX", "DirectX 12", "discrete GPU", true)
    );
    for (backend, label) in [
        (GpuBackend::Vulkan, "Vulkan"),
        (GpuBackend::Metal, "Metal"),
        (GpuBackend::Gl, "OpenGL"),
        (GpuBackend::BrowserWebGpu, "WebGPU"),
        (GpuBackend::Noop, "noop"),
    ] {
        assert_eq!(summarize(String::new(), backend, DeviceKind::Other).backend, label);
    }
    for (device, label) in [
        (DeviceKind::Integrated, "integrated GPU"),
        (DeviceKind::Virtual, "virtual GPU"),
        (DeviceKind::Software, "software rasterizer"),
        (DeviceKind::Other, "unknown device"),
    ] {
        let s = summarize(String::new(), GpuBackend::Vulkan, device);
        assert_eq!((s.device_type, s.discrete), (label, false));
    }
}

#[test]
fn best_adapter_comes_first() {
    let found = vec![
        summarize("llvmpipe".to_owned(), GpuBackend::Vulkan, DeviceKind::Software),
        summarize("a".to_owned(), GpuBackend::Vulkan, DeviceKind::Integrated),
        summarize("NVIDIA X".to_owned(), GpuBackend::Gl, DeviceKind::Discrete),
        summarize("b".to_owned(), GpuBackend::Gl, DeviceKind::Other),
        summarize("c".to_owned(), GpuBackend::Dx12, DeviceKind::Discrete),
    ];
    let report = report_adapters(&found);
    let names: Vec<&str> = report.adapters.iter().map(|a| a.name.as_str()).collect();
    assert_eq!(names, vec!["NVIDIA X", "c", "a", "b", "llvmpipe"]);
    assert_eq!(report.best().unwrap().name, "NVIDIA X");
    assert!(report.has_usable_gpu());
    assert!(report.has_nvidia());

    let software = report_adapters(&vec![summarize(
        "WARP".to_owned(),
        GpuBackend::Dx12,
        DeviceKind::Software,
    )]);
    assert!(!software.has_usable_gpu());
    assert!(!software.has_nvidia());
    assert!(software.best().is_some());
    let none = GpuReport { adapters: Vec::new() };
    assert!(none.best().is_none());
    assert!(!none.has_usable_gpu());
}

#[test]
fn backends_are_tried_in_order_of_reliability() {
    let found = vec![
        adapter("gl", GpuBackend::Gl, DeviceKind::Discrete),
        adapter("dx", GpuBackend::Dx12, DeviceKind::Discrete),
        adapter("vk-virtual", GpuBackend::Vulkan, DeviceKind::Virtual),
        adapter("vk-soft", GpuBackend::Vulkan, DeviceKind::Software),
        adapter("metal", GpuBackend::Metal, DeviceKind::Integrated),
        adapter("vk-int", GpuBackend::Vulkan, DeviceKind::Integrated),
        adapter("vk-a", GpuBackend::Vulkan, DeviceKind::Discrete),
        adapter("vk-other", GpuBackend::Vulkan, DeviceKind::Other),
        adapter("vk-b", GpuBackend::Vulkan, DeviceKind::Discrete),
        adapter("noop", GpuBackend::Noop, DeviceKind::Other),
    ];
    let names = |choice: BackendChoice, system: System| -> Vec<&str> {
        ladder(&found, choice, system)
            .into_iter()
            .map(|i| found[i].name.as_str())
            .collect()
    };
    let vulkan = ["vk-a", "vk-b", "vk-int", "vk-virtual", "vk-other", "vk-soft"];
    assert_eq!(names(BackendChoice::Vulkan, System::Linux), vulkan);
    let mut windows = vulkan.to_vec();
    windows.extend(["dx", "gl"]);
    assert_eq!(names(BackendChoice::Auto, System::Windows), windows);
    let mut linux = vulkan.to_vec();
    linux.push("gl");
    assert_eq!(names(BackendChoice::Auto, System::Linux), linux);
    assert_eq!(names(BackendChoice::Auto, System::MacOs), vec!["metal"]);
    assert_eq!(names(BackendChoice::Dx12, System::MacOs), vec!["dx"]);
    assert_eq!(names(BackendChoice::Gl, System::Windows), vec!["gl"]);
    assert_eq!(names(BackendChoice::Metal, System::Linux), vec!["metal"]);
}

#[test]
fn failures_fall_through_to_the_next_adapter() {
    let order = vec![
        adapter("a", GpuBackend::Vulkan, DeviceKind::Discrete),
        adapter("soft", GpuBackend::Vulkan, DeviceKind::Software),
        adapter("b", GpuBackend::Dx12, DeviceKind::Discrete),
    ];
    assert_eq!(next_candidate(&order, 0, &usual()), Some(0));
    assert_eq!(next_candidate(&order, 1, &usual()), Some(2));
    assert_eq!(next_candidate(&order, 3, &usual()), None);
    let software = GpuOptions { allow_software: true, ..usual() };
    assert_eq!(next_candidate(&order, 1, &software), Some(1));
    let pinned = GpuOptions { index: Some(2), ..usual() };
    assert_eq!(next_candidate(&order, 0, &pinned), Some(2));
    let soft = GpuOptions { index: Some(1), ..usual() };
    assert_eq!(next_candidate(&order, 0, &soft), None);
    let outside = GpuOptions { index: Some(9), ..usual() };
    assert_eq!(next_candidate(&order, 0, &outside), None);
}

#[test]
fn backend_choices_have_names() {
    for (s, c) in [
        ("Auto", BackendChoice::Auto),
        ("vulkan", BackendChoice::Vulkan),
        ("DX12", BackendChoice::Dx12),
        ("metal", BackendChoice::Metal),
        ("gl", BackendChoice::Gl),
    ] {
        assert_eq!(BackendChoice::from_str(s), Ok(c));
    }
    assert_eq!(
        BackendChoice::from_str("CUDA"),
        Err("unknown GPU backend 'cuda' (expected auto|vulkan|dx12|metal|gl)".to_owned())
    );
}

#[test]
fn doctor_shows_what_would_be_used() {
    let order = vec![
        adapter("soft", GpuBackend::Vulkan, DeviceKind::Software),
        adapter("a", GpuBackend::Vulkan, DeviceKind::Discrete),
        adapter("b", GpuBackend::Gl, DeviceKind::Integrated),
    ];
    assert_eq!(
        doctor_lines(&order),
        vec![
            "  [0] soft (Vulkan, software rasterizer) (software — needs --allow-software)",
            "  [1] a (Vulkan, discrete GPU) → would use",
            "  [2] b (OpenGL, integrated GPU) ",
        ]
    );
    let report = doctor_report(&order);
    assert_eq!(report.len(), 4);
    assert_eq!(
        report[0],
        "GPU adapters, in selection order (pin one with --gpu-index N):"
    );
    let software = doctor_report(&vec![adapter("soft", GpuBackend::Gl, DeviceKind::Software)]);
    assert_eq!(
        software[2],
        "  Only software rasterizers found; training requires --allow-software (very slow)."
    );
    let none = doctor_report(&Vec::new());
    assert_eq!(none.len(), 1);
    assert!(none[0].starts_with("GPU: no adapters found — training will not work"));
}
