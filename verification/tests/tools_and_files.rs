use rasa::mcp::{method_not_found, route, RpcMethod, METHOD_NOT_FOUND};
use rasa::batch::BatchFilter;
use rasa::color::BlendMode;
use rasa::document::Document;
use rasa::error::RasaError;
use rasa::format::ImageFormat;
use rasa::layer::{Adjustment, Layer};
use rasa::mcp::{
    choose_filter, parse_batch_filter, parse_uuid, plan_apply_filter, plan_batch_export, plan_layer_edit,
    plan_open_image, select_tool, ArgValue, FilterChoice, LayerAction, OpenRequest, Tool, ToolArgs,
};
use rasa::project::{frame_project, split_project, MAX_HEADER_SIZE};
use rasa::render::{tile_coords, RenderCache};
use rasa::text::decimal_string;
use rasa::tool_defs::list_tools;

const DOC: &str = "67e55044-10b1-426f-9247-bb680e5fe0c8";
const LAYER: &str = "550e8400-e29b-41d4-a716-446655440000";

fn text(k: &str, v: &str) -> (String, ArgValue) {
    (k.to_string(), ArgValue::Text(v.to_string()))
}

fn num(k: &str, v: f64) -> (String, ArgValue) {
    let unsigned = if v >= 0.0 && v.fract() == 0.0 { Some(v as u64) } else { None };
    (k.to_string(), ArgValue::Number { unsigned, single: (v as f32).to_bits() })
}

fn args(entries: Vec<(String, ArgValue)>) -> ToolArgs {
    ToolArgs { entries }
}

fn id(s: &str) -> u128 {
    u128::from_str_radix(&s.replace('-', ""), 16).unwrap()
}

// ── Project files ───────────────────────────────────────

#[test]
fn project_frame_round_trip() {
    let framed = frame_project(b"{\"v\":1}", &[1, 2, 3]);
    assert_eq!(&framed[0..4], b"RASA");
    assert_eq!(u64::from_le_bytes(framed[4..12].try_into().unwrap()), 7);
    let (h, b) = split_project(&framed).unwrap();
    assert_eq!(h, b"{\"v\":1}");
    assert_eq!(b, &[1, 2, 3]);
}

#[test]
fn project_bad_magic_and_truncation() {
    match split_project(b"PNG!00000000") {
        Err(RasaError::CorruptFile(m)) => assert_eq!(m, "not a .rasa file (bad magic)"),
        _ => panic!("expected CorruptFile"),
    }
    assert!(matches!(split_project(b"RA"), Err(RasaError::Io(_))));
    assert!(matches!(split_project(b"RASA\x05\0\0"), Err(RasaError::Io(_))));
    let mut short = frame_project(b"abcdef", &[]);
    short.truncate(15);
    assert!(matches!(split_project(&short), Err(RasaError::Io(m)) if m == "failed to fill whole buffer"));
}

#[test]
fn project_header_too_large() {
    let mut bytes = b"RASA".to_vec();
    bytes.extend_from_slice(&(MAX_HEADER_SIZE + 1).to_le_bytes());
    match split_project(&bytes) {
        Err(RasaError::CorruptFile(m)) => assert_eq!(m, "header too large: 268435457 bytes (max 268435456)"),
        _ => panic!("expected CorruptFile"),
    }
}

#[test]
fn decimal_strings() {
    assert_eq!(decimal_string(0), "0");
    assert_eq!(decimal_string(7), "7");
    assert_eq!(decimal_string(1000), "1000");
    assert_eq!(decimal_string(u64::MAX), u64::MAX.to_string());
}

#[test]
fn stored_layers_and_sections() {
    let mut doc = Document::new("P", 2, 1);
    doc.add_adjustment_layer("Adj", Adjustment::Levels { black: 0, white: 0x3f80_0000, gamma: 0x3f80_0000 });
    let top = Layer::new_raster("Top", 1, 3);
    let top_id = top.id;
    doc.add_layer(top);
    let bg = doc.layers[0].id;
    let ids = doc.stored_layer_ids();
    assert_eq!(ids, vec![bg, top_id]);
    let body: Vec<u8> = (0..20).collect();
    let sections = doc.pixel_sections(&ids, &body).unwrap();
    assert_eq!(sections.len(), 2);
    assert_eq!(sections[0].0, bg);
    assert_eq!((sections[0].1, sections[0].2), (2, 1));
    assert_eq!(sections[0].3, &body[0..8]);
    assert_eq!(sections[1].3, &body[8..20]);
    assert!(matches!(doc.pixel_sections(&ids, &body[..19]), Err(RasaError::Io(_))));
    let skipped = doc.pixel_sections(&[999, bg], &body).unwrap();
    assert_eq!(skipped.len(), 1);
}

// ── Tiles ───────────────────────────────────────────────

#[test]
fn tiles_cover_the_canvas() {
    let t = tile_coords(600, 300);
    assert_eq!(t.len(), 6);
    assert_eq!(t[2].x, 512f64.to_bits());
    assert_eq!(t[2].width, 88f64.to_bits());
    assert_eq!(t[5].y, 256f64.to_bits());
    assert_eq!(t[5].height, 44f64.to_bits());
    assert_eq!(tile_coords(0, 100).len(), 0);
    assert_eq!(tile_coords(100, 0).len(), 0);
    assert_eq!(tile_coords(256, 256).len(), 1);
}

#[test]
fn render_cache_tracks_dirty_tiles() {
    let mut cache = RenderCache::new(512, 256);
    assert_eq!(cache.tile_count(), 2);
    assert_eq!(cache.dirty_tiles(), vec![0, 1]);
    cache.store_tile(0, rasa::pixel::PixelBuffer::new(1, 1));
    cache.store_tile(9, rasa::pixel::PixelBuffer::new(1, 1));
    assert_eq!(cache.dirty_tiles(), vec![1]);
    cache.store_tile(1, rasa::pixel::PixelBuffer::new(1, 1));
    assert!(cache.is_clean());
    let region = cache.tile_rect(1).unwrap();
    cache.invalidate_region(region, |a: &rasa::geometry::Rect, b: &rasa::geometry::Rect| a == b);
    assert_eq!(cache.dirty_tiles(), vec![1]);
    cache.invalidate_all();
    assert_eq!(cache.dirty_tiles(), vec![0, 1]);
    assert!(cache.tile_rect(2).is_none());
}

// ── Tool arguments ──────────────────────────────────────

#[test]
fn uuid_arguments() {
    let a = args(vec![text("document_id", DOC), text("bad", "nope")]);
    assert_eq!(parse_uuid(&a, "document_id").unwrap(), id(DOC));
    assert_eq!(parse_uuid(&a, "layer_id").unwrap_err(), "missing layer_id");
    assert_eq!(parse_uuid(&a, "bad").unwrap_err(), "invalid UUID for bad: nope");
}

#[test]
fn tool_names() {
    assert_eq!(select_tool("rasa_edit_layer").unwrap(), Tool::EditLayer);
    assert_eq!(select_tool("rasa_batch_export").unwrap(), Tool::BatchExport);
    assert_eq!(select_tool("rasa_nope").unwrap_err(), "unknown tool: rasa_nope");
}

#[test]
fn edit_layer_plans() {
    let no_adj = || Err::<Adjustment, String>("missing adjustment_type".to_string());
    let a = args(vec![text("document_id", DOC), text("action", "add")]);
    match plan_layer_edit(&a, no_adj()).unwrap() {
        (d, LayerAction::Add { name }) => {
            assert_eq!(d, id(DOC));
            assert_eq!(name, "New Layer");
        },
        _ => panic!("expected Add"),
    }
    let a = args(vec![text("document_id", DOC), text("action", "set_opacity"), text("layer_id", LAYER), num("opacity", 0.5)]);
    match plan_layer_edit(&a, no_adj()).unwrap() {
        (_, LayerAction::SetOpacity { layer_id, opacity }) => {
            assert_eq!(layer_id, id(LAYER));
            assert_eq!(opacity, 0.5f32.to_bits());
        },
        _ => panic!("expected SetOpacity"),
    }
    let a = args(vec![text("document_id", DOC), text("action", "set_blend_mode"), text("layer_id", LAYER), text("blend_mode", "Screen")]);
    assert!(matches!(plan_layer_edit(&a, no_adj()).unwrap().1, LayerAction::SetBlendMode { mode: BlendMode::Screen, .. }));
    let a = args(vec![text("document_id", DOC), text("action", "reorder"), text("layer_id", LAYER)]);
    assert_eq!(plan_layer_edit(&a, no_adj()).unwrap_err(), "missing index");
    let a = args(vec![text("document_id", DOC), text("action", "explode")]);
    assert_eq!(plan_layer_edit(&a, no_adj()).unwrap_err(), "unknown action: explode");
    let a = args(vec![text("action", "add")]);
    assert_eq!(plan_layer_edit(&a, no_adj()).unwrap_err(), "missing document_id");
    let a = args(vec![text("document_id", DOC)]);
    assert_eq!(plan_layer_edit(&a, no_adj()).unwrap_err(), "missing action");
    let a = args(vec![text("document_id", DOC), text("action", "add_adjustment")]);
    assert_eq!(plan_layer_edit(&a, no_adj()).unwrap_err(), "missing adjustment_type");
    let a = args(vec![text("document_id", DOC), text("action", "set_adjustment")]);
    assert_eq!(plan_layer_edit(&a, no_adj()).unwrap_err(), "missing layer_id");
}

#[test]
fn open_image_plans() {
    match plan_open_image(&args(vec![num("width", 99999.0), num("height", 0.0)])) {
        OpenRequest::Canvas { name, width, height } => {
            assert_eq!(name, "Untitled");
            assert_eq!(width, 16384);
            assert_eq!(height, 1);
        },
        _ => panic!("expected a canvas"),
    }
    match plan_open_image(&args(vec![])) {
        OpenRequest::Canvas { width, height, .. } => assert_eq!((width, height), (1920, 1080)),
        _ => panic!("expected a canvas"),
    }
    assert!(matches!(plan_open_image(&args(vec![text("path", "/tmp/x.png")])), OpenRequest::File { .. }));
}

#[test]
fn filter_plans() {
    let a = args(vec![text("document_id", DOC), text("layer_id", LAYER), text("filter", "blur")]);
    let (_, l, f) = plan_apply_filter(&a).unwrap();
    assert_eq!(l, id(LAYER));
    assert_eq!(choose_filter(&a, &f).unwrap(), FilterChoice::Blur { radius: 3 });
    assert_eq!(choose_filter(&a, "sharpen").unwrap(), FilterChoice::Sharpen { radius: 1, amount: 1.0f32.to_bits() });
    assert_eq!(choose_filter(&a, "emboss").unwrap_err(), "unknown filter: emboss");
    let b = args(vec![text("document_id", DOC), text("layer_id", LAYER)]);
    assert_eq!(plan_apply_filter(&b).unwrap_err(), "missing filter");
}

#[test]
fn batch_plans() {
    let filter = ArgValue::Object(vec![text("name", "blur"), num("radius", 9000.0)]);
    let a = args(vec![
        (
            "input_paths".to_string(),
            ArgValue::List(vec![ArgValue::Text("a.png".into()), ArgValue::Bool(true), ArgValue::Text("b.png".into())]),
        ),
        text("output_dir", "/out"),
        text("format", "JPG"),
        num("quality", 0.0),
        ("filters".to_string(), ArgValue::List(vec![filter])),
    ]);
    let req = plan_batch_export(&a).unwrap();
    assert_eq!(req.input_paths, vec!["a.png".to_string(), "b.png".to_string()]);
    assert_eq!(req.format, Some(ImageFormat::Jpeg));
    assert_eq!(req.jpeg_quality, 1);
    assert_eq!(req.filters, vec![BatchFilter::GaussianBlur { radius: 500 }]);
    let bad = args(vec![
        ("input_paths".to_string(), ArgValue::List(vec![ArgValue::Text("a.png".into())])),
        text("output_dir", "/out"),
        text("format", "xyz"),
    ]);
    assert_eq!(plan_batch_export(&bad).unwrap_err(), "unknown format: xyz");
    let empty = args(vec![("input_paths".to_string(), ArgValue::List(vec![ArgValue::Null]))]);
    assert_eq!(plan_batch_export(&empty).unwrap_err(), "input_paths must not be empty");
    assert_eq!(plan_batch_export(&args(vec![])).unwrap_err(), "missing input_paths");
    let many = args(vec![(
        "input_paths".to_string(),
        ArgValue::List((0..1001).map(|i| ArgValue::Text(format!("{i}.png"))).collect()),
    )]);
    assert_eq!(plan_batch_export(&many).unwrap_err(), "batch size 1001 exceeds maximum of 1000");
}

#[test]
fn batch_filter_objects() {
    assert_eq!(parse_batch_filter(&ArgValue::Null).unwrap_err(), "filter missing name");
    let sharpen = ArgValue::Object(vec![text("name", "sharpen")]);
    assert_eq!(parse_batch_filter(&sharpen).unwrap(), BatchFilter::Sharpen { radius: 1, amount: 0.5f32.to_bits() });
    let odd = ArgValue::Object(vec![text("name", "sepia")]);
    assert_eq!(parse_batch_filter(&odd).unwrap_err(), "unknown filter: sepia");
}

#[test]
fn requests_route_by_method() {
    assert_eq!(route("initialize"), RpcMethod::Initialize);
    assert_eq!(route("notifications/initialized"), RpcMethod::Initialized);
    assert_eq!(route("tools/list"), RpcMethod::ListTools);
    assert_eq!(route("tools/call"), RpcMethod::CallTool);
    assert_eq!(route("nonexistent/method"), RpcMethod::Unknown);
    assert_eq!(route("Tools/List"), RpcMethod::Unknown);
    let e = method_not_found("nonexistent/method");
    assert_eq!(e.code, METHOD_NOT_FOUND);
    assert_eq!(e.code, -32601);
    assert_eq!(e.message, "method not found: nonexistent/method");
}

#[test]
fn list_tools_returns_six() {
    let tools = list_tools();
    assert_eq!(tools.len(), 6);
    let names: Vec<&str> = tools.iter().map(|t| t.name.as_str()).collect();
    assert!(names.contains(&"rasa_open_image"));
    assert!(names.contains(&"rasa_edit_layer"));
    assert!(names.contains(&"rasa_apply_filter"));
    assert!(names.contains(&"rasa_get_document"));
    assert!(names.contains(&"rasa_export"));
    assert!(names.contains(&"rasa_batch_export"));
}

#[test]
fn tool_schemas_valid_json() {
    for tool in list_tools() {
        assert_eq!(tool.input_schema.kind, "object");
    }
}

#[test]
fn tool_schemas_list_required_and_choices() {
    let tools = list_tools();
    let edit = &tools[1];
    assert_eq!(edit.input_schema.required, vec!["document_id", "action"]);
    let action = &edit.input_schema.properties[1];
    assert_eq!(action.name, "action");
    assert_eq!(action.options.len(), 11);
    assert_eq!(action.options[8], "merge_down");
    let batch = &tools[5];
    let filters = &batch.input_schema.properties[4];
    assert_eq!(filters.kind, "array");
    let items = filters.items.as_ref().unwrap();
    assert_eq!(items.kind, "object");
    assert_eq!(items.properties.len(), 8);
    assert_eq!(items.properties[6].name, "radius");
    assert_eq!(items.properties[6].kind, "number");
    assert!(tools[0].input_schema.required.is_empty());
    assert_eq!(tools[2].input_schema.properties[8].kind, "integer");
}

const DOC_ID: &str = "67e55044-10b1-426f-9247-bb680e5fe0c8";

#[test]
fn unknown_tool_errors() {
    let result = select_tool("nonexistent");
    assert!(result.is_err());
}

#[test]
fn open_clamps_huge_dimensions() {
    match plan_open_image(&args(vec![num("width", 99999.0), num("height", 99999.0)])) {
        OpenRequest::Canvas { width, height, .. } => {
            assert!(width <= rasa::mcp::MAX_TOOL_DIMENSION);
            assert!(height <= rasa::mcp::MAX_TOOL_DIMENSION);
        }
        OpenRequest::File { .. } => panic!("expected a canvas"),
    }
}

#[test]
fn apply_filter_unknown_errors() {
    let a = args(vec![text("document_id", DOC_ID), text("layer_id", LAYER), text("filter", "bogus_filter")]);
    let (_, _, filter) = plan_apply_filter(&a).unwrap();
    let result = choose_filter(&a, &filter);
    assert!(result.is_err());
}

#[test]
fn edit_layer_unknown_action_errors() {
    let a = args(vec![text("document_id", DOC_ID), text("action", "explode")]);
    let adjustment = Adjustment::BrightnessContrast { brightness: 0, contrast: 0 };
    let result = plan_layer_edit(&a, Ok(adjustment));
    assert_eq!(result.unwrap_err(), "unknown action: explode");
}

#[test]
fn batch_export_missing_inputs_errors() {
    let result = plan_batch_export(&args(vec![text("output_dir", "/tmp/batch_test")]));
    assert!(result.is_err());
}
