use rasa::error::RasaError;
use rasa::pipeline::{pipeline_step, PipelineEvent, PipelineState, PipelineStep, TaskKind};
use rasa::color::{BlendMode, Color};
use rasa::filters::{GaussianBlurFilter, GrayscaleFilter, InvertFilter, SharpenFilter};
use rasa::gpu::{CpuBackend, GpuError};
use rasa::models::presets;
use rasa::models::ModelId;
use rasa::pixel::PixelBuffer;
use rasa::text::{str_eq, truncate};
use rasa::upscaling::ScaleFactor;

#[test]
fn model_id_display() {
    let id = ModelId::new("test-model");
    assert_eq!(id.to_string(), "test-model");
}

#[test]
fn presets_exist() {
    assert_eq!(presets::real_esrgan_x4().0, "realesrgan-x4plus");
    assert_eq!(presets::sam_vit_h().0, "sam-vit-h");
}

#[test]
fn style_transfer_preset() {
    let id = presets::style_transfer_default();
    assert_eq!(id.0, "style-transfer-v1");
}

#[test]
fn color_grading_preset() {
    let id = presets::color_grading_default();
    assert_eq!(id.0, "color-grading-v1");
}

#[test]
fn other_presets() {
    assert_eq!(presets::stable_diffusion_inpaint().0, "stable-diffusion-inpainting");
    assert_eq!(presets::stable_diffusion_xl().0, "stable-diffusion-xl-base-1.0");
    assert_eq!(presets::rembg_u2net().0, "u2net");
}

#[test]
fn scale_factor_values() {
    assert_eq!(ScaleFactor::X2.value(), 2);
    assert_eq!(ScaleFactor::X4.value(), 4);
}

#[test]
fn truncate_short() {
    assert_eq!(truncate("hello", 10), "hello");
}

#[test]
fn truncate_long() {
    assert_eq!(truncate("hello world this is long", 10).len(), 10);
}

#[test]
fn truncate_exact() {
    assert_eq!(truncate("hello", 5), "hello");
}

#[test]
fn truncate_backs_off_to_a_char_boundary() {
    assert_eq!(truncate("h\u{e9}llo", 2), "h");
    assert_eq!(truncate("h\u{e9}llo", 3), "h\u{e9}");
    assert_eq!(truncate("\u{1F600}", 3), "");
    assert_eq!(truncate("abc", 0), "");
}

#[test]
fn str_eq_compares_characters() {
    assert!(str_eq("abc", "abc"));
    assert!(!str_eq("abc", "abd"));
    assert!(!str_eq("abc", "ab"));
    assert!(str_eq("", ""));
}

#[test]
fn cpu_backend_name() {
    let backend = CpuBackend;
    assert_eq!(backend.name(), "CPU");
    assert!(!backend.is_gpu());
}

#[test]
fn cpu_composite_covers_the_smaller_size() {
    let backend = CpuBackend;
    let mut dst = PixelBuffer::new(3, 2);
    let src = PixelBuffer::filled(2, 3, Color::white());
    backend.composite(&mut dst, &src, BlendMode::Normal, 1.0f32.to_bits(), &|_b: Color, t: Color, _m: BlendMode, _o: u32| t);
    assert_eq!(dst.get(0, 0), Some(Color::white()));
    assert_eq!(dst.get(1, 1), Some(Color::white()));
    assert_eq!(dst.get(2, 0), Some(Color::transparent()));
    assert_eq!(dst.dimensions(), (3, 2));
}

#[test]
fn filter_names() {
    assert_eq!(InvertFilter.name(), "Invert");
    assert_eq!(GrayscaleFilter.name(), "Grayscale");
    assert_eq!(GaussianBlurFilter { radius: 3 }.name(), "Gaussian Blur");
    assert_eq!(SharpenFilter { radius: 2, amount: 1.0f32.to_bits() }.name(), "Sharpen");
}

#[test]
fn gpu_error_messages() {
    assert_eq!(GpuError::NoAdapter.message(), "no suitable GPU adapter found");
    assert_eq!(GpuError::DeviceRequest("busy".into()).message(), "failed to request GPU device: busy");
    assert_eq!(GpuError::Operation("oom".into()).message(), "GPU operation failed: oom");
}

#[test]
fn pipeline_not_busy_initially() {
    let state = PipelineState::new();
    assert!(!state.is_busy());
}

#[test]
fn pipeline_run_reports_progress_and_clears_the_task() {
    let kind = TaskKind::Segment;
    let (s, a) = pipeline_step(kind, PipelineState::new(), PipelineEvent::Start { task_id: "t1".into() });
    assert!(s.is_busy());
    assert_eq!(a.progress, Some(0.0f32.to_bits()));
    assert!(matches!(a.step, PipelineStep::Encode));
    let (s, a) = pipeline_step(kind, s, PipelineEvent::Encoded { task_id: "t1".into() });
    assert_eq!(a.progress, Some(0.1f32.to_bits()));
    assert!(matches!(a.step, PipelineStep::Call { kind: TaskKind::Segment }));
    let (s, a) = pipeline_step(kind, s, PipelineEvent::Answered);
    assert_eq!(a.progress, Some(0.8f32.to_bits()));
    assert!(matches!(a.step, PipelineStep::DecodeMask));
    let (s, a) = pipeline_step(kind, s, PipelineEvent::Decoded);
    assert_eq!(a.progress, Some(1.0f32.to_bits()));
    assert!(matches!(a.step, PipelineStep::Finish));
    assert!(!s.is_busy());
}

#[test]
fn pipeline_cancelled_task_fails_after_encoding() {
    let kind = TaskKind::Upscale;
    let (mut s, _) = pipeline_step(kind, PipelineState::new(), PipelineEvent::Start { task_id: "t2".into() });
    s.cancel();
    assert!(s.is_cancelled("t2"));
    assert!(!s.is_cancelled("other"));
    let (s, a) = pipeline_step(kind, s, PipelineEvent::Encoded { task_id: "t2".into() });
    match a.step {
        PipelineStep::Fail { error: RasaError::Other(m) } => assert_eq!(m, "task cancelled"),
        _ => panic!("expected the run to fail"),
    }
    assert!(s.is_busy());
    let (_, a) = pipeline_step(TaskKind::Inpaint, PipelineState::new(), PipelineEvent::Answered);
    assert!(matches!(a.step, PipelineStep::DecodeImage));
}
