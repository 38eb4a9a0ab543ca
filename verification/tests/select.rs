use mdless::config::schema::{ImageMode, MermaidBackend, MermaidConfig};
use mdless::mermaid::mmdc::MmdcRunner;
use mdless::mermaid::select::{
    decide, select_backend, source_lines, AutoRenderer, ImageCapability, MermaidBlock, MermaidOutput,
    MermaidRender, MermaidRenderer, RenderEnvironment, RenderStep, Situation, Strategy,
};

const FLOWCHART: &str = "graph LR\n    A --> B\n    B --> C\n";
const SEQUENCE: &str = "sequenceDiagram\n    A->>B: hi\n";

fn block(src: &str) -> MermaidBlock {
    MermaidBlock { source: src.to_string() }
}

fn render_env(images: ImageCapability, mmdc: bool) -> RenderEnvironment {
    RenderEnvironment { images, mmdc_available: mmdc, ..RenderEnvironment::default() }
}

/// Plans a block and completes any requested `mmdc` run the way the
/// application does when the command is not installed, as on the machines
/// these tests run on.
fn render(r: &impl MermaidRenderer, b: &MermaidBlock, width: usize) -> MermaidRender {
    match r.plan(b, width) {
        RenderStep::Done(out) => out,
        RenderStep::RunMmdc { command, .. } => {
            let missing = MmdcRunner::new(&command, None).not_found().describe();
            r.complete(b, width, Err(missing))
        }
    }
}

#[test]
fn row1_native_supported() {
    assert_eq!(
        decide(Situation { native_supported: true, mmdc_available: false, image_protocol: false }),
        Strategy::Native
    );
    for mmdc in [false, true] {
        for img in [false, true] {
            assert_eq!(
                decide(Situation { native_supported: true, mmdc_available: mmdc, image_protocol: img }),
                Strategy::Native
            );
        }
    }
}

#[test]
fn row2_mmdc_with_image_protocol() {
    assert_eq!(
        decide(Situation { native_supported: false, mmdc_available: true, image_protocol: true }),
        Strategy::MmdcImage
    );
}

#[test]
fn row3_mmdc_without_image_protocol() {
    assert_eq!(
        decide(Situation { native_supported: false, mmdc_available: true, image_protocol: false }),
        Strategy::SourceWithExternalOpen
    );
}

#[test]
fn row4_mmdc_unavailable() {
    for img in [false, true] {
        assert_eq!(
            decide(Situation { native_supported: false, mmdc_available: false, image_protocol: img }),
            Strategy::Source
        );
    }
}

#[test]
fn row5_render_failure_falls_back_with_warning() {
    let cfg = MermaidConfig::default();
    let e = RenderEnvironment { width_cells: 8, ..render_env(ImageCapability::NoImage, false) };
    let r = render(&select_backend(&cfg, &e), &block(FLOWCHART), 8);
    assert!(matches!(r.output, MermaidOutput::Source(_)));
    assert!(r.warning.is_some(), "expected a non-fatal warning");
}

#[test]
fn auto_renders_flowchart_natively() {
    let cfg = MermaidConfig::default();
    let r = render(&select_backend(&cfg, &render_env(ImageCapability::NoImage, false)), &block(FLOWCHART), 80);
    match r.output {
        MermaidOutput::Text(lines) => assert!(lines.iter().any(|l| l.contains('A'))),
        other => panic!("expected native text, got {other:?}"),
    }
    assert!(r.warning.is_none());
}

#[test]
fn auto_without_mmdc_falls_back_to_source() {
    let cfg = MermaidConfig::default();
    let r = render(&select_backend(&cfg, &render_env(ImageCapability::Kitty, false)), &block(SEQUENCE), 80);
    assert_eq!(r.output, MermaidOutput::Source(source_lines(SEQUENCE)));
    assert!(r.warning.is_some());
    assert!(!r.external_open);
}

#[test]
fn auto_with_mmdc_but_no_protocol_offers_external_open() {
    let cfg = MermaidConfig::default();
    let r = render(&select_backend(&cfg, &render_env(ImageCapability::NoImage, true)), &block(SEQUENCE), 80);
    assert!(matches!(r.output, MermaidOutput::Source(_)));
    assert!(r.external_open);
    assert!(r.warning.is_some());
}

#[test]
fn auto_strategy_for_each_diagram_kind() {
    let cfg = MermaidConfig::default();
    let auto = AutoRenderer::new(&cfg, &render_env(ImageCapability::Kitty, true));
    assert_eq!(auto.strategy_for(FLOWCHART), Strategy::Native);
    assert_eq!(auto.strategy_for(SEQUENCE), Strategy::MmdcImage);
    assert_eq!(auto.strategy_for("gantt\ntitle x"), Strategy::MmdcImage);
}

#[test]
fn backend_source_override() {
    let cfg = MermaidConfig { backend: MermaidBackend::Source, ..MermaidConfig::default() };
    let r = render(&select_backend(&cfg, &render_env(ImageCapability::Kitty, true)), &block(FLOWCHART), 80);
    assert_eq!(r.output, MermaidOutput::Source(source_lines(FLOWCHART)));
    assert!(r.warning.is_none(), "an explicit choice is not a failure");
}

#[test]
fn backend_terminal_override_ignores_mmdc() {
    let cfg = MermaidConfig { backend: MermaidBackend::Terminal, ..MermaidConfig::default() };
    let e = render_env(ImageCapability::Kitty, true);
    let r = render(&select_backend(&cfg, &e), &block(SEQUENCE), 80);
    assert!(matches!(r.output, MermaidOutput::Source(_)));
    assert!(r.warning.is_some());
    let r = render(&select_backend(&cfg, &e), &block(FLOWCHART), 80);
    assert!(matches!(r.output, MermaidOutput::Text(_)));
}

#[test]
fn backend_mmdc_override_without_protocol_degrades() {
    let cfg = MermaidConfig { backend: MermaidBackend::Mmdc, ..MermaidConfig::default() };
    let r = render(&select_backend(&cfg, &render_env(ImageCapability::NoImage, true)), &block(FLOWCHART), 80);
    assert!(matches!(r.output, MermaidOutput::Source(_)));
    assert!(r.external_open);
}

#[test]
fn images_never_disables_image_output() {
    let cfg = MermaidConfig { images: ImageMode::Never, ..MermaidConfig::default() };
    let auto = AutoRenderer::new(&cfg, &render_env(ImageCapability::Kitty, true));
    assert_eq!(auto.strategy_for(SEQUENCE), Strategy::SourceWithExternalOpen);
}

#[test]
fn images_always_forces_the_image_column() {
    let cfg = MermaidConfig { images: ImageMode::Always, ..MermaidConfig::default() };
    let auto = AutoRenderer::new(&cfg, &render_env(ImageCapability::NoImage, true));
    assert_eq!(auto.strategy_for(SEQUENCE), Strategy::MmdcImage);
}

#[test]
fn mmdc_backend_never_panics_when_binary_is_missing() {
    let cfg = MermaidConfig {
        backend: MermaidBackend::Mmdc,
        mmdc_command: "definitely-not-a-real-binary-xyz".to_string(),
        ..MermaidConfig::default()
    };
    let r = render(&select_backend(&cfg, &render_env(ImageCapability::Kitty, true)), &block(SEQUENCE), 80);
    assert!(matches!(r.output, MermaidOutput::Source(_)));
    assert!(r.warning.is_some());
}

#[test]
fn ascii_environment_produces_ascii_output() {
    let cfg = MermaidConfig::default();
    let e = RenderEnvironment { unicode_box: false, ..render_env(ImageCapability::NoImage, false) };
    let r = render(&select_backend(&cfg, &e), &block(FLOWCHART), 80);
    match r.output {
        MermaidOutput::Text(lines) => {
            assert!(lines.iter().all(|l| l.is_ascii()), "{lines:?}");
        }
        other => panic!("expected text, got {other:?}"),
    }
}
