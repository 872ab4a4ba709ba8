//! What the editor's tool server decides: blend-mode names, the voice intents
//! it offers, and its protocol errors.
use vstd::prelude::*;
use vstd::string::StringExecFns;

use crate::batch::BatchFilter;
use crate::bits::F32Bits;
use crate::color::BlendMode;
use crate::format::{format_for_extension, path_extension, ImageFormat};
use crate::layer::{Adjustment, AdjustmentModel};
use crate::text::{decimal, decimal_string, str_eq};

verus! {

/// The Unicode lowercase form of `s`, as std's `str::to_lowercase` gives it.
pub uninterp spec fn unicode_lowercase(s: Seq<char>) -> Seq<char>;

/// `str::to_lowercase`. Claimed: the result is `unicode_lowercase` of the
/// argument. Which characters it maps, and to what, is left to std's
/// Unicode tables.
#[verifier::external_body]
fn to_lowercase(s: &str) -> (r: String)
    ensures
        r@ == unicode_lowercase(s@),
{
    s.to_lowercase()
}

/// The blend mode a lowercase tool argument names.
pub open spec fn blend_mode_named(s: Seq<char>) -> Option<BlendMode> {
    if s == "normal"@ {
        Some(BlendMode::Normal)
    } else if s == "multiply"@ {
        Some(BlendMode::Multiply)
    } else if s == "screen"@ {
        Some(BlendMode::Screen)
    } else if s == "overlay"@ {
        Some(BlendMode::Overlay)
    } else if s == "darken"@ {
        Some(BlendMode::Darken)
    } else if s == "lighten"@ {
        Some(BlendMode::Lighten)
    } else if s == "color_dodge"@ || s == "colordodge"@ {
        Some(BlendMode::ColorDodge)
    } else if s == "color_burn"@ || s == "colorburn"@ {
        Some(BlendMode::ColorBurn)
    } else if s == "soft_light"@ || s == "softlight"@ {
        Some(BlendMode::SoftLight)
    } else if s == "hard_light"@ || s == "hardlight"@ {
        Some(BlendMode::HardLight)
    } else if s == "difference"@ {
        Some(BlendMode::Difference)
    } else if s == "exclusion"@ {
        Some(BlendMode::Exclusion)
    } else {
        None
    }
}

/// The mode's own name, in lowercase words joined by `_`.
pub open spec fn mode_name(m: BlendMode) -> Seq<char> {
    match m {
        BlendMode::Normal => "normal"@,
        BlendMode::Multiply => "multiply"@,
        BlendMode::Screen => "screen"@,
        BlendMode::Overlay => "overlay"@,
        BlendMode::Darken => "darken"@,
        BlendMode::Lighten => "lighten"@,
        BlendMode::ColorDodge => "color_dodge"@,
        BlendMode::ColorBurn => "color_burn"@,
        BlendMode::SoftLight => "soft_light"@,
        BlendMode::HardLight => "hard_light"@,
        BlendMode::Difference => "difference"@,
        BlendMode::Exclusion => "exclusion"@,
    }
}

/// Every blend mode is read back from its own name, and each two-word mode
/// also from its words run together (`"colordodge"`); so no two modes share
/// a name.
pub proof fn law_blend_mode_read_from_its_name(m: BlendMode)
    ensures
        blend_mode_named(mode_name(m)) == Some(m),
        m == BlendMode::ColorDodge ==> blend_mode_named("colordodge"@) == Some(m),
        m == BlendMode::ColorBurn ==> blend_mode_named("colorburn"@) == Some(m),
        m == BlendMode::SoftLight ==> blend_mode_named("softlight"@) == Some(m),
        m == BlendMode::HardLight ==> blend_mode_named("hardlight"@) == Some(m),
{
    reveal_strlit("normal");
    reveal_strlit("multiply");
    reveal_strlit("screen");
    reveal_strlit("overlay");
    reveal_strlit("darken");
    reveal_strlit("lighten");
    reveal_strlit("color_dodge");
    reveal_strlit("colordodge");
    reveal_strlit("color_burn");
    reveal_strlit("colorburn");
    reveal_strlit("soft_light");
    reveal_strlit("softlight");
    reveal_strlit("hard_light");
    reveal_strlit("hardlight");
    reveal_strlit("difference");
    reveal_strlit("exclusion");
    assert("normal"@.len() == 6 && "normal"@[0] == 'n' && "normal"@[5] == 'l');
    assert("multiply"@.len() == 8 && "multiply"@[0] == 'm' && "multiply"@[5] == 'p');
    assert("screen"@.len() == 6 && "screen"@[0] == 's' && "screen"@[5] == 'n');
    assert("overlay"@.len() == 7 && "overlay"@[0] == 'o' && "overlay"@[5] == 'a');
    assert("darken"@.len() == 6 && "darken"@[0] == 'd' && "darken"@[5] == 'n');
    assert("lighten"@.len() == 7 && "lighten"@[0] == 'l' && "lighten"@[5] == 'e');
    assert("color_dodge"@.len() == 11 && "color_dodge"@[0] == 'c' && "color_dodge"@[5] == '_');
    assert("colordodge"@.len() == 10 && "colordodge"@[0] == 'c' && "colordodge"@[5] == 'd');
    assert("color_burn"@.len() == 10 && "color_burn"@[0] == 'c' && "color_burn"@[5] == '_');
    assert("colorburn"@.len() == 9 && "colorburn"@[0] == 'c' && "colorburn"@[5] == 'b');
    assert("soft_light"@.len() == 10 && "soft_light"@[0] == 's' && "soft_light"@[5] == 'l');
    assert("softlight"@.len() == 9 && "softlight"@[0] == 's' && "softlight"@[5] == 'i');
    assert("hard_light"@.len() == 10 && "hard_light"@[0] == 'h' && "hard_light"@[5] == 'l');
    assert("hardlight"@.len() == 9 && "hardlight"@[0] == 'h' && "hardlight"@[5] == 'i');
    assert("difference"@.len() == 10 && "difference"@[0] == 'd' && "difference"@[5] == 'r');
    assert("exclusion"@.len() == 9 && "exclusion"@[0] == 'e' && "exclusion"@[5] == 's');
    match m {
        BlendMode::Normal => {},
        BlendMode::Multiply => {},
        BlendMode::Screen => {},
        BlendMode::Overlay => {},
        BlendMode::Darken => {},
        BlendMode::Lighten => {},
        BlendMode::ColorDodge => {},
        BlendMode::ColorBurn => {},
        BlendMode::SoftLight => {},
        BlendMode::HardLight => {},
        BlendMode::Difference => {},
        BlendMode::Exclusion => {},
    }
}

/// The blend mode named by `lower`, an argument already in lowercase.
pub fn blend_mode_from_lowercase(lower: &str) -> (r: Option<BlendMode>)
    ensures
        r == blend_mode_named(lower@),
{
    if str_eq(lower, "normal") {
        Some(BlendMode::Normal)
    } else if str_eq(lower, "multiply") {
        Some(BlendMode::Multiply)
    } else if str_eq(lower, "screen") {
        Some(BlendMode::Screen)
    } else if str_eq(lower, "overlay") {
        Some(BlendMode::Overlay)
    } else if str_eq(lower, "darken") {
        Some(BlendMode::Darken)
    } else if str_eq(lower, "lighten") {
        Some(BlendMode::Lighten)
    } else if str_eq(lower, "color_dodge") || str_eq(lower, "colordodge") {
        Some(BlendMode::ColorDodge)
    } else if str_eq(lower, "color_burn") || str_eq(lower, "colorburn") {
        Some(BlendMode::ColorBurn)
    } else if str_eq(lower, "soft_light") || str_eq(lower, "softlight") {
        Some(BlendMode::SoftLight)
    } else if str_eq(lower, "hard_light") || str_eq(lower, "hardlight") {
        Some(BlendMode::HardLight)
    } else if str_eq(lower, "difference") {
        Some(BlendMode::Difference)
    } else if str_eq(lower, "exclusion") {
        Some(BlendMode::Exclusion)
    } else {
        None
    }
}

/// Read a blend mode from a tool argument, in any case. Fails with
/// `"unknown blend mode: <s>"` for a name it does not know.
pub fn parse_blend_mode(s: &str) -> (r: Result<BlendMode, String>)
    ensures
        match blend_mode_named(unicode_lowercase(s@)) {
            Some(m) => r == Ok::<BlendMode, String>(m),
            None => r matches Err(e) && e@ == "unknown blend mode: "@ + s@,
        },
{
    let lower = to_lowercase(s);
    match blend_mode_from_lowercase(lower.as_str()) {
        Some(m) => Ok(m),
        None => {
            let mut msg = "unknown blend mode: ".to_owned();
            msg.append(s);
            Err(msg)
        },
    }
}

// ── Voice intents ───────────────────────────────────────

/// An intent of the voice-command platform.
#[derive(Debug, Clone)]
pub struct AgnosIntent {
    pub name: String,
    pub description: String,
    pub utterances: Vec<String>,
    pub parameters: Vec<IntentParam>,
}

/// A parameter slot of an intent.
#[derive(Debug, Clone)]
pub struct IntentParam {
    pub name: String,
    pub param_type: String,
    pub required: bool,
    pub description: String,
}

/// The names of the intents, in the order they are listed.
pub open spec fn intent_names() -> Seq<Seq<char>> {
    seq!["rasa.open"@, "rasa.filter"@, "rasa.layer"@, "rasa.export"@, "rasa.ai"@]
}

/// What each intent says it does.
pub open spec fn intent_descriptions() -> Seq<Seq<char>> {
    seq![
        "Open an image or create a new canvas"@,
        "Apply a filter or adjustment to the current layer"@,
        "Manage layers: add, remove, rename, adjust"@,
        "Export or save the current document"@,
        "Apply AI operations: inpaint, upscale, remove background, generate"@,
    ]
}

/// The example utterances of each intent, in order.
pub open spec fn intent_utterances() -> Seq<Seq<Seq<char>>> {
    seq![
        seq![
            "open {file}"@,
            "create a new {width} by {height} canvas"@,
            "new image {width} by {height}"@,
            "open image {file}"@,
            "load {file}"@,
        ],
        seq![
            "apply {filter}"@,
            "add a {filter} filter"@,
            "blur this layer"@,
            "sharpen the image"@,
            "invert the colors"@,
            "make it grayscale"@,
            "increase brightness by {amount}"@,
            "adjust contrast to {amount}"@,
        ],
        seq![
            "add a new layer"@,
            "add layer called {name}"@,
            "delete this layer"@,
            "remove layer {name}"@,
            "rename layer to {name}"@,
            "set opacity to {opacity}"@,
            "hide this layer"@,
            "show this layer"@,
            "duplicate this layer"@,
            "merge down"@,
        ],
        seq![
            "export as {format}"@,
            "save as {file}"@,
            "export to {file}"@,
            "save this image"@,
            "export as PNG"@,
            "save as JPEG with quality {quality}"@,
        ],
        seq![
            "remove the background"@,
            "upscale this image"@,
            "upscale {scale} times"@,
            "inpaint the selection"@,
            "fill selection with {prompt}"@,
            "generate an image of {prompt}"@,
            "AI select the subject"@,
        ],
    ]
}

/// The slots of each intent: name, type, whether it is required, and what
/// it holds.
pub open spec fn intent_slots() -> Seq<Seq<(Seq<char>, Seq<char>, bool, Seq<char>)>> {
    seq![
        seq![
            ("file"@, "string"@, false, "File path to open"@),
            ("width"@, "integer"@, false, "Canvas width"@),
            ("height"@, "integer"@, false, "Canvas height"@),
        ],
        seq![
            ("filter"@, "string"@, true, "Filter name: blur, sharpen, invert, grayscale, brightness, contrast"@),
            ("amount"@, "number"@, false, "Filter intensity or amount"@),
        ],
        seq![
            ("action"@, "string"@, true, "Layer action: add, remove, rename, opacity, hide, show, duplicate, merge"@),
            ("name"@, "string"@, false, "Layer name"@),
            ("opacity"@, "number"@, false, "Opacity value 0-100"@),
        ],
        seq![
            ("file"@, "string"@, false, "Output file path"@),
            ("format"@, "string"@, false, "Export format: png, jpeg, webp, tiff"@),
            ("quality"@, "integer"@, false, "JPEG quality 1-100"@),
        ],
        seq![
            ("operation"@, "string"@, true, "AI operation: inpaint, upscale, remove_background, generate, select"@),
            ("prompt"@, "string"@, false, "Text prompt for generation or inpainting"@),
            ("scale"@, "integer"@, false, "Upscale factor (2 or 4)"@),
        ],
    ]
}

/// The intent `i` has the slots `slots`.
pub open spec fn has_slots(i: AgnosIntent, slots: Seq<(Seq<char>, Seq<char>, bool, Seq<char>)>) -> bool {
    &&& i.parameters@.len() == slots.len()
    &&& forall|k: int| 0 <= k < slots.len() ==> {
        &&& (#[trigger] i.parameters@[k]).name@ == slots[k].0
        &&& i.parameters@[k].param_type@ == slots[k].1
        &&& i.parameters@[k].required == slots[k].2
        &&& i.parameters@[k].description@ == slots[k].3
    }
}

/// The intent `i` has the utterances `u`, in order.
pub open spec fn has_utterances(i: AgnosIntent, u: Seq<Seq<char>>) -> bool {
    &&& i.utterances@.len() == u.len()
    &&& forall|k: int| 0 <= k < u.len() ==> (#[trigger] i.utterances@[k])@ == u[k]
}

fn param(name: &str, param_type: &str, required: bool, description: &str) -> (r: IntentParam)
    ensures
        r.name@ == name@,
        r.param_type@ == param_type@,
        r.required == required,
        r.description@ == description@,
{
    IntentParam {
        name: name.to_owned(),
        param_type: param_type.to_owned(),
        required,
        description: description.to_owned(),
    }
}

pub(crate) fn texts(items: &[&str]) -> (r: Vec<String>)
    ensures
        r@.len() == items@.len(),
        forall|k: int| 0 <= k < items@.len() ==> #[trigger] r@[k]@ == items@[k]@,
{
    let mut r: Vec<String> = Vec::new();
    let mut k: usize = 0;
    while k < items.len()
        invariant
            k <= items@.len(),
            r@.len() == k,
            forall|j: int| 0 <= j < k ==> #[trigger] r@[j]@ == items@[j]@,
        decreases items.len() - k,
    {
        r.push(items[k].to_owned());
        k += 1;
    }
    r
}

/// The five intents the editor answers, each with its description, example
/// utterances and parameter slots.
pub fn list_intents() -> (r: Vec<AgnosIntent>)
    ensures
        r@.len() == 5,
        forall|i: int| 0 <= i < 5 ==> {
            &&& (#[trigger] r@[i]).name@ == intent_names()[i]
            &&& r@[i].description@ == intent_descriptions()[i]
            &&& has_utterances(r@[i], intent_utterances()[i])
            &&& has_slots(r@[i], intent_slots()[i])
        },
{
    let open = AgnosIntent {
        name: "rasa.open".to_owned(),
        description: "Open an image or create a new canvas".to_owned(),
        utterances: texts(
            &[
                "open {file}",
                "create a new {width} by {height} canvas",
                "new image {width} by {height}",
                "open image {file}",
                "load {file}",
            ],
        ),
        parameters: vec![
            param("file", "string", false, "File path to open"),
            param("width", "integer", false, "Canvas width"),
            param("height", "integer", false, "Canvas height"),
        ],
    };
    let filter = AgnosIntent {
        name: "rasa.filter".to_owned(),
        description: "Apply a filter or adjustment to the current layer".to_owned(),
        utterances: texts(
            &[
                "apply {filter}",
                "add a {filter} filter",
                "blur this layer",
                "sharpen the image",
                "invert the colors",
                "make it grayscale",
                "increase brightness by {amount}",
                "adjust contrast to {amount}",
            ],
        ),
        parameters: vec![
            param("filter", "string", true, "Filter name: blur, sharpen, invert, grayscale, brightness, contrast"),
            param("amount", "number", false, "Filter intensity or amount"),
        ],
    };
    let layer = AgnosIntent {
        name: "rasa.layer".to_owned(),
        description: "Manage layers: add, remove, rename, adjust".to_owned(),
        utterances: texts(
            &[
                "add a new layer",
                "add layer called {name}",
                "delete this layer",
                "remove layer {name}",
                "rename layer to {name}",
                "set opacity to {opacity}",
                "hide this layer",
                "show this layer",
                "duplicate this layer",
                "merge down",
            ],
        ),
        parameters: vec![
            param(
                "action",
                "string",
                true,
                "Layer action: add, remove, rename, opacity, hide, show, duplicate, merge",
            ),
            param("name", "string", false, "Layer name"),
            param("opacity", "number", false, "Opacity value 0-100"),
        ],
    };
    let export = AgnosIntent {
        name: "rasa.export".to_owned(),
        description: "Export or save the current document".to_owned(),
        utterances: texts(
            &[
                "export as {format}",
                "save as {file}",
                "export to {file}",
                "save this image",
                "export as PNG",
                "save as JPEG with quality {quality}",
            ],
        ),
        parameters: vec![
            param("file", "string", false, "Output file path"),
            param("format", "string", false, "Export format: png, jpeg, webp, tiff"),
            param("quality", "integer", false, "JPEG quality 1-100"),
        ],
    };
    let ai = AgnosIntent {
        name: "rasa.ai".to_owned(),
        description: "Apply AI operations: inpaint, upscale, remove background, generate".to_owned(),
        utterances: texts(
            &[
                "remove the background",
                "upscale this image",
                "upscale {scale} times",
                "inpaint the selection",
                "fill selection with {prompt}",
                "generate an image of {prompt}",
                "AI select the subject",
            ],
        ),
        parameters: vec![
            param("operation", "string", true, "AI operation: inpaint, upscale, remove_background, generate, select"),
            param("prompt", "string", false, "Text prompt for generation or inpainting"),
            param("scale", "integer", false, "Upscale factor (2 or 4)"),
        ],
    };
    let r = vec![open, filter, layer, export, ai];
    assert(has_slots(r@[0], intent_slots()[0]));
    assert(has_slots(r@[1], intent_slots()[1]));
    assert(has_slots(r@[2], intent_slots()[2]));
    assert(has_slots(r@[3], intent_slots()[3]));
    assert(has_slots(r@[4], intent_slots()[4]));
    assert(has_utterances(r@[0], intent_utterances()[0]));
    assert(has_utterances(r@[1], intent_utterances()[1]));
    assert(has_utterances(r@[2], intent_utterances()[2]));
    assert(has_utterances(r@[3], intent_utterances()[3]));
    assert(has_utterances(r@[4], intent_utterances()[4]));
    r
}

// ── Protocol errors ─────────────────────────────────────

/// A JSON-RPC 2.0 error object.
#[derive(Debug)]
pub struct JsonRpcError {
    pub code: i64,
    pub message: String,
}

/// The JSON-RPC code of a request for a method the server does not have.
pub const METHOD_NOT_FOUND: i64 = -32601;

/// What the server does with a request, by its method.
#[derive(Debug, Clone, Copy, PartialEq, Eq, Structural)]
pub enum RpcMethod {
    /// `initialize`: answer with the server's information.
    Initialize,
    /// `notifications/initialized`: acknowledge with an empty result.
    Initialized,
    /// `tools/list`: answer with the tool definitions.
    ListTools,
    /// `tools/call`: run the named tool.
    CallTool,
    /// Anything else: answer with `method_not_found`.
    Unknown,
}

/// The handling that the method name `m` selects.
pub open spec fn rpc_method_named(m: Seq<char>) -> RpcMethod {
    if m == "initialize"@ {
        RpcMethod::Initialize
    } else if m == "notifications/initialized"@ {
        RpcMethod::Initialized
    } else if m == "tools/list"@ {
        RpcMethod::ListTools
    } else if m == "tools/call"@ {
        RpcMethod::CallTool
    } else {
        RpcMethod::Unknown
    }
}

/// How a request for `method` is handled.
pub fn route(method: &str) -> (r: RpcMethod)
    ensures
        r == rpc_method_named(method@),
{
    if str_eq(method, "initialize") {
        RpcMethod::Initialize
    } else if str_eq(method, "notifications/initialized") {
        RpcMethod::Initialized
    } else if str_eq(method, "tools/list") {
        RpcMethod::ListTools
    } else if str_eq(method, "tools/call") {
        RpcMethod::CallTool
    } else {
        RpcMethod::Unknown
    }
}

/// The error answered for a request of an unknown method.
pub fn method_not_found(method: &str) -> (r: JsonRpcError)
    ensures
        r.code == METHOD_NOT_FOUND,
        r.message@ == "method not found: "@ + method@,
{
    let mut message = "method not found: ".to_owned();
    message.append(method);
    JsonRpcError { code: METHOD_NOT_FOUND, message }
}

// ── Tool arguments ──────────────────────────────────────

/// A value of a tool's JSON arguments, as far as the tools read it.
#[derive(Debug)]
pub enum ArgValue {
    Null,
    Bool(bool),
    /// A number: the non-negative integer it is, if it is one, and the
    /// bit pattern of the `f32` nearest to it.
    Number { unsigned: Option<u64>, single: F32Bits },
    Text(String),
    List(Vec<ArgValue>),
    Object(Vec<(String, ArgValue)>),
}

/// The JSON object of a tool's arguments: its keys and values, in order.
#[derive(Debug)]
pub struct ToolArgs {
    pub entries: Vec<(String, ArgValue)>,
}

/// The value of the first entry of `e` with key `key`.
pub open spec fn lookup(e: Seq<(String, ArgValue)>, key: Seq<char>) -> Option<ArgValue>
    decreases e.len(),
{
    if e.len() == 0 {
        None
    } else if e[0].0@ == key {
        Some(e[0].1)
    } else {
        lookup(e.drop_first(), key)
    }
}

/// The text at `key`, if the value there is text.
pub open spec fn text_arg(e: Seq<(String, ArgValue)>, key: Seq<char>) -> Option<Seq<char>> {
    match lookup(e, key) {
        Some(ArgValue::Text(s)) => Some(s@),
        _ => None,
    }
}

/// The non-negative integer at `key`, if the value there is one.
pub open spec fn unsigned_arg(e: Seq<(String, ArgValue)>, key: Seq<char>) -> Option<u64> {
    match lookup(e, key) {
        Some(ArgValue::Number { unsigned, .. }) => unsigned,
        _ => None,
    }
}

/// The number at `key` as an `f32` bit pattern, if the value there is a number.
pub open spec fn single_arg(e: Seq<(String, ArgValue)>, key: Seq<char>) -> Option<F32Bits> {
    match lookup(e, key) {
        Some(ArgValue::Number { single, .. }) => Some(single),
        _ => None,
    }
}

/// The boolean at `key`, if the value there is one.
pub open spec fn bool_arg(e: Seq<(String, ArgValue)>, key: Seq<char>) -> Option<bool> {
    match lookup(e, key) {
        Some(ArgValue::Bool(b)) => Some(b),
        _ => None,
    }
}

/// The value of the first entry of `entries` with key `key`.
pub fn entry_value<'a>(entries: &'a Vec<(String, ArgValue)>, key: &str) -> (r: Option<&'a ArgValue>)
    ensures
        match lookup(entries@, key@) {
            Some(v) => r == Some(&v),
            None => r is None,
        },
{
    let mut i: usize = 0;
    assert(entries@.subrange(0, entries@.len() as int) =~= entries@);
    while i < entries.len()
        invariant
            i <= entries@.len(),
            lookup(entries@, key@) == lookup(entries@.subrange(i as int, entries@.len() as int), key@),
        decreases entries.len() - i,
    {
        let ghost rest = entries@.subrange(i as int, entries@.len() as int);
        assert(rest.drop_first() =~= entries@.subrange(i + 1, entries@.len() as int));
        if str_eq(entries[i].0.as_str(), key) {
            return Some(&entries[i].1);
        }
        i += 1;
    }
    None
}

impl ToolArgs {
    /// The value of the first entry with key `key`.
    pub fn get(&self, key: &str) -> (r: Option<&ArgValue>)
        ensures
            match lookup(self.entries@, key@) {
                Some(v) => r == Some(&v),
                None => r is None,
            },
    {
        entry_value(&self.entries, key)
    }

    /// The text at `key`.
    pub fn text(&self, key: &str) -> (r: Option<&str>)
        ensures
            match text_arg(self.entries@, key@) {
                Some(s) => r matches Some(t) && t@ == s,
                None => r is None,
            },
    {
        match self.get(key) {
            Some(ArgValue::Text(s)) => Some(s.as_str()),
            _ => None,
        }
    }

    /// The non-negative integer at `key`.
    pub fn unsigned(&self, key: &str) -> (r: Option<u64>)
        ensures
            r == unsigned_arg(self.entries@, key@),
    {
        match self.get(key) {
            Some(ArgValue::Number { unsigned, .. }) => *unsigned,
            _ => None,
        }
    }

    /// The number at `key`, as an `f32` bit pattern.
    pub fn single(&self, key: &str) -> (r: Option<F32Bits>)
        ensures
            r == single_arg(self.entries@, key@),
    {
        match self.get(key) {
            Some(ArgValue::Number { single, .. }) => Some(*single),
            _ => None,
        }
    }

    /// The boolean at `key`.
    pub fn boolean(&self, key: &str) -> (r: Option<bool>)
        ensures
            r == bool_arg(self.entries@, key@),
    {
        match self.get(key) {
            Some(ArgValue::Bool(b)) => Some(*b),
            _ => None,
        }
    }
}

/// The identifier that `uuid::Uuid::parse_str` reads from `text`, as a
/// 128-bit integer; `None` where it reports an error.
pub uninterp spec fn uuid_from_text(text: Seq<char>) -> Option<u128>;

/// `uuid::Uuid::parse_str`, then `as_u128`. Claimed: the result is
/// `uuid_from_text` of the text. Which texts parse, and to what, is left
/// to the uuid crate.
#[verifier::external_body]
fn parse_uuid_text(text: &str) -> (r: Option<u128>)
    ensures
        r == uuid_from_text(text@),
{
    match uuid::Uuid::parse_str(text) {
        Ok(u) => Some(u.as_u128()),
        Err(_) => None,
    }
}

/// The identifier at `key`, or the message a tool answers without one.
pub open spec fn uuid_arg(e: Seq<(String, ArgValue)>, key: Seq<char>) -> Result<u128, Seq<char>> {
    match text_arg(e, key) {
        None => Err("missing "@ + key),
        Some(s) => match uuid_from_text(s) {
            Some(u) => Ok(u),
            None => Err("invalid UUID for "@ + key + ": "@ + s),
        },
    }
}

/// Read the identifier at `key`.
pub fn parse_uuid(args: &ToolArgs, key: &str) -> (r: Result<u128, String>)
    ensures
        match uuid_arg(args.entries@, key@) {
            Ok(u) => r == Ok::<u128, String>(u),
            Err(m) => r matches Err(e) && e@ == m,
        },
{
    match args.text(key) {
        None => {
            let mut m = "missing ".to_owned();
            m.append(key);
            Err(m)
        },
        Some(s) => match parse_uuid_text(s) {
            Some(u) => Ok(u),
            None => {
                let mut m = "invalid UUID for ".to_owned();
                m.append(key);
                m.append(": ");
                m.append(s);
                Err(m)
            },
        },
    }
}

// ── The layer-editing tool ──────────────────────────────

/// A layer edit asked of the layer-editing tool, its arguments read.
#[derive(Debug)]
pub enum LayerAction {
    Add { name: String },
    Remove { layer_id: u128 },
    Rename { layer_id: u128, name: String },
    SetOpacity { layer_id: u128, opacity: F32Bits },
    SetBlendMode { layer_id: u128, mode: BlendMode, mode_name: String },
    SetVisibility { layer_id: u128, visible: bool },
    Duplicate { layer_id: u128 },
    Reorder { layer_id: u128, index: usize },
    MergeDown { layer_id: u128 },
    AddAdjustment { name: String, adjustment: Adjustment },
    SetAdjustment { layer_id: u128, adjustment: Adjustment },
}

/// `r` is the error `m`.
pub open spec fn fails_with<T>(r: Result<T, String>, m: Seq<char>) -> bool {
    r matches Err(e) && e@ == m
}

/// What `plan_layer_edit` answers once the document and the action are read.
pub open spec fn planned_action(
    e: Seq<(String, ArgValue)>,
    action: Seq<char>,
    adjustment: Result<AdjustmentModel, Seq<char>>,
    r: Result<(u128, LayerAction), String>,
    doc: u128,
) -> bool {
    let target = uuid_arg(e, "layer_id"@);
    if action == "add"@ {
        r matches Ok((d, LayerAction::Add { name })) && d == doc && name@ == match text_arg(e, "name"@) {
            Some(n) => n,
            None => "New Layer"@,
        }
    } else if action == "add_adjustment"@ {
        match adjustment {
            Err(m) => fails_with(r, m),
            Ok(a) => r matches Ok((d, LayerAction::AddAdjustment { name, adjustment })) && d == doc
                && adjustment@ == a && name@ == match text_arg(e, "name"@) {
                Some(n) => n,
                None => "Adjustment"@,
            },
        }
    } else if !(action == "remove"@ || action == "rename"@ || action == "set_opacity"@ || action
        == "set_blend_mode"@ || action == "set_visibility"@ || action == "duplicate"@ || action == "reorder"@
        || action == "merge_down"@ || action == "set_adjustment"@) {
        fails_with(r, "unknown action: "@ + action)
    } else {
        match target {
            Err(m) => fails_with(r, m),
            Ok(l) => if action == "remove"@ {
                r matches Ok((d, LayerAction::Remove { layer_id })) && d == doc && layer_id == l
            } else if action == "rename"@ {
                match text_arg(e, "name"@) {
                    None => fails_with(r, "missing name"@),
                    Some(n) => r matches Ok((d, LayerAction::Rename { layer_id, name })) && d == doc
                        && layer_id == l && name@ == n,
                }
            } else if action == "set_opacity"@ {
                match single_arg(e, "opacity"@) {
                    None => fails_with(r, "missing opacity"@),
                    Some(o) => r == Ok::<(u128, LayerAction), String>((doc, LayerAction::SetOpacity { layer_id: l, opacity: o })),
                }
            } else if action == "set_blend_mode"@ {
                match text_arg(e, "blend_mode"@) {
                    None => fails_with(r, "missing blend_mode"@),
                    Some(n) => match blend_mode_named(unicode_lowercase(n)) {
                        None => fails_with(r, "unknown blend mode: "@ + n),
                        Some(m) => r matches Ok((d, LayerAction::SetBlendMode { layer_id, mode, mode_name }))
                            && d == doc && layer_id == l && mode == m && mode_name@ == n,
                    },
                }
            } else if action == "set_visibility"@ {
                match bool_arg(e, "visible"@) {
                    None => fails_with(r, "missing visible"@),
                    Some(v) => r == Ok::<(u128, LayerAction), String>((doc, LayerAction::SetVisibility { layer_id: l, visible: v })),
                }
            } else if action == "duplicate"@ {
                r == Ok::<(u128, LayerAction), String>((doc, LayerAction::Duplicate { layer_id: l }))
            } else if action == "reorder"@ {
                match unsigned_arg(e, "index"@) {
                    None => fails_with(r, "missing index"@),
                    Some(i) => r == Ok::<(u128, LayerAction), String>((doc, LayerAction::Reorder { layer_id: l, index: i as usize })),
                }
            } else if action == "merge_down"@ {
                r == Ok::<(u128, LayerAction), String>((doc, LayerAction::MergeDown { layer_id: l }))
            } else {
                match adjustment {
                    Err(m) => fails_with(r, m),
                    Ok(a) => r matches Ok((d, LayerAction::SetAdjustment { layer_id, adjustment })) && d == doc
                        && layer_id == l && adjustment@ == a,
                }
            },
        }
    }
}

/// The layer-editing tool, asked to change a layer's visibility, opacity,
/// name or place, plans exactly the value it was given, for the layer it
/// was given: `visible: false` hides the layer and `visible: true` shows it.
pub proof fn law_layer_edit_plans_the_values_given(
    e: Seq<(String, ArgValue)>,
    action: Seq<char>,
    adjustment: Result<AdjustmentModel, Seq<char>>,
    r: Result<(u128, LayerAction), String>,
    doc: u128,
    l: u128,
)
    requires
        planned_action(e, action, adjustment, r, doc),
        uuid_arg(e, "layer_id"@) == Ok::<u128, Seq<char>>(l),
    ensures
        action == "set_visibility"@ ==> (bool_arg(e, "visible"@) matches Some(v) ==> r matches Ok(
            (d, LayerAction::SetVisibility { layer_id, visible }),
        ) && d == doc && layer_id == l && visible == v),
        action == "set_opacity"@ ==> (single_arg(e, "opacity"@) matches Some(o) ==> r matches Ok(
            (d, LayerAction::SetOpacity { layer_id, opacity }),
        ) && d == doc && layer_id == l && opacity == o),
        action == "rename"@ ==> (text_arg(e, "name"@) matches Some(n) ==> r matches Ok(
            (d, LayerAction::Rename { layer_id, name }),
        ) && d == doc && layer_id == l && name@ == n),
        action == "reorder"@ ==> (unsigned_arg(e, "index"@) matches Some(i) ==> r matches Ok(
            (d, LayerAction::Reorder { layer_id, index }),
        ) && d == doc && layer_id == l && index == i as usize),
{
    reveal_strlit("add");
    reveal_strlit("add_adjustment");
    reveal_strlit("remove");
    reveal_strlit("rename");
    reveal_strlit("set_opacity");
    reveal_strlit("set_blend_mode");
    reveal_strlit("set_visibility");
    reveal_strlit("duplicate");
    reveal_strlit("reorder");
    reveal_strlit("merge_down");
    reveal_strlit("set_adjustment");
    assert("add"@.len() == 3 && "add"@[0] == 'a');
    assert("add_adjustment"@.len() == 14 && "add_adjustment"@[0] == 'a' && "add_adjustment"@[4] == 'a');
    assert("remove"@.len() == 6 && "remove"@[0] == 'r' && "remove"@[4] == 'v');
    assert("rename"@.len() == 6 && "rename"@[0] == 'r' && "rename"@[4] == 'm');
    assert("set_opacity"@.len() == 11 && "set_opacity"@[0] == 's' && "set_opacity"@[4] == 'o');
    assert("set_blend_mode"@.len() == 14 && "set_blend_mode"@[0] == 's' && "set_blend_mode"@[4] == 'b');
    assert("set_visibility"@.len() == 14 && "set_visibility"@[0] == 's' && "set_visibility"@[4] == 'v');
    assert("duplicate"@.len() == 9 && "duplicate"@[0] == 'd' && "duplicate"@[4] == 'i');
    assert("reorder"@.len() == 7 && "reorder"@[0] == 'r' && "reorder"@[4] == 'd');
    assert("merge_down"@.len() == 10 && "merge_down"@[0] == 'm' && "merge_down"@[4] == 'e');
    assert("set_adjustment"@.len() == 14 && "set_adjustment"@[0] == 's' && "set_adjustment"@[4] == 'a');
}

/// The view of an adjustment read from the arguments, or of why it could not be.
pub open spec fn adjustment_view(a: Result<Adjustment, String>) -> Result<AdjustmentModel, Seq<char>> {
    match a {
        Ok(x) => Ok(x@),
        Err(m) => Err(m@),
    }
}

/// Read the arguments of the layer-editing tool: the document, the action
/// and what the action needs, failing with the message the tool answers.
/// `adjustment` is the adjustment read from the arguments, used by the
/// adjustment actions.
pub fn plan_layer_edit(args: &ToolArgs, adjustment: Result<Adjustment, String>) -> (r: Result<
    (u128, LayerAction),
    String,
>)
    ensures
        match uuid_arg(args.entries@, "document_id"@) {
            Err(m) => fails_with(r, m),
            Ok(doc) => match text_arg(args.entries@, "action"@) {
                None => fails_with(r, "missing action"@),
                Some(a) => planned_action(args.entries@, a, adjustment_view(adjustment), r, doc),
            },
        },
{
    let doc = parse_uuid(args, "document_id")?;
    let action = match args.text("action") {
        Some(a) => a,
        None => return Err("missing action".to_owned()),
    };
    if str_eq(action, "add") {
        let name = match args.text("name") {
            Some(n) => n,
            None => "New Layer",
        };
        return Ok((doc, LayerAction::Add { name: name.to_owned() }));
    }
    if str_eq(action, "add_adjustment") {
        let name = match args.text("name") {
            Some(n) => n,
            None => "Adjustment",
        };
        let adjustment = adjustment?;
        return Ok((doc, LayerAction::AddAdjustment { name: name.to_owned(), adjustment }));
    }
    if !(str_eq(action, "remove") || str_eq(action, "rename") || str_eq(action, "set_opacity") || str_eq(
        action,
        "set_blend_mode",
    ) || str_eq(action, "set_visibility") || str_eq(action, "duplicate") || str_eq(action, "reorder")
        || str_eq(action, "merge_down") || str_eq(action, "set_adjustment")) {
        let mut m = "unknown action: ".to_owned();
        m.append(action);
        return Err(m);
    }
    let layer_id = parse_uuid(args, "layer_id")?;
    if str_eq(action, "remove") {
        Ok((doc, LayerAction::Remove { layer_id }))
    } else if str_eq(action, "rename") {
        match args.text("name") {
            None => Err("missing name".to_owned()),
            Some(n) => Ok((doc, LayerAction::Rename { layer_id, name: n.to_owned() })),
        }
    } else if str_eq(action, "set_opacity") {
        match args.single("opacity") {
            None => Err("missing opacity".to_owned()),
            Some(o) => Ok((doc, LayerAction::SetOpacity { layer_id, opacity: o })),
        }
    } else if str_eq(action, "set_blend_mode") {
        match args.text("blend_mode") {
            None => Err("missing blend_mode".to_owned()),
            Some(n) => {
                let mode = parse_blend_mode(n)?;
                Ok((doc, LayerAction::SetBlendMode { layer_id, mode, mode_name: n.to_owned() }))
            },
        }
    } else if str_eq(action, "set_visibility") {
        match args.boolean("visible") {
            None => Err("missing visible".to_owned()),
            Some(v) => Ok((doc, LayerAction::SetVisibility { layer_id, visible: v })),
        }
    } else if str_eq(action, "duplicate") {
        Ok((doc, LayerAction::Duplicate { layer_id }))
    } else if str_eq(action, "reorder") {
        match args.unsigned("index") {
            None => Err("missing index".to_owned()),
            Some(i) => Ok((doc, LayerAction::Reorder { layer_id, index: i as usize })),
        }
    } else if str_eq(action, "merge_down") {
        Ok((doc, LayerAction::MergeDown { layer_id }))
    } else {
        let adjustment = adjustment?;
        Ok((doc, LayerAction::SetAdjustment { layer_id, adjustment }))
    }
}

// ── The other tools ─────────────────────────────────────

/// The tools the server offers.
#[derive(Debug, Clone, Copy, PartialEq, Eq, Structural)]
pub enum Tool {
    OpenImage,
    EditLayer,
    ApplyFilter,
    GetDocument,
    Export,
    BatchExport,
}

/// The tool a call names.
pub open spec fn tool_named(name: Seq<char>) -> Option<Tool> {
    if name == "rasa_open_image"@ {
        Some(Tool::OpenImage)
    } else if name == "rasa_edit_layer"@ {
        Some(Tool::EditLayer)
    } else if name == "rasa_apply_filter"@ {
        Some(Tool::ApplyFilter)
    } else if name == "rasa_get_document"@ {
        Some(Tool::GetDocument)
    } else if name == "rasa_export"@ {
        Some(Tool::Export)
    } else if name == "rasa_batch_export"@ {
        Some(Tool::BatchExport)
    } else {
        None
    }
}

/// The tool a call names, or `"unknown tool: <name>"`.
pub fn select_tool(name: &str) -> (r: Result<Tool, String>)
    ensures
        match tool_named(name@) {
            Some(t) => r == Ok::<Tool, String>(t),
            None => fails_with(r, "unknown tool: "@ + name@),
        },
{
    if str_eq(name, "rasa_open_image") {
        Ok(Tool::OpenImage)
    } else if str_eq(name, "rasa_edit_layer") {
        Ok(Tool::EditLayer)
    } else if str_eq(name, "rasa_apply_filter") {
        Ok(Tool::ApplyFilter)
    } else if str_eq(name, "rasa_get_document") {
        Ok(Tool::GetDocument)
    } else if str_eq(name, "rasa_export") {
        Ok(Tool::Export)
    } else if str_eq(name, "rasa_batch_export") {
        Ok(Tool::BatchExport)
    } else {
        let mut m = "unknown tool: ".to_owned();
        m.append(name);
        Err(m)
    }
}

/// Largest width or height of a document the tools create.
pub const MAX_TOOL_DIMENSION: u32 = 16384;

/// What the open-image tool is asked: open a file, or create a canvas.
#[derive(Debug)]
pub enum OpenRequest {
    File { path: String },
    Canvas { name: String, width: u32, height: u32 },
}

/// `v` clamped to `lo..=hi`.
pub open spec fn clamp_u32(v: u32, lo: u32, hi: u32) -> u32 {
    if v < lo {
        lo
    } else if v > hi {
        hi
    } else {
        v
    }
}

/// The canvas side asked at `key`: the number given (cut to 32 bits) or
/// `default`, clamped to `1..=MAX_TOOL_DIMENSION`.
pub open spec fn canvas_side(e: Seq<(String, ArgValue)>, key: Seq<char>, default: u64) -> u32 {
    let v = match unsigned_arg(e, key) {
        Some(n) => n,
        None => default,
    };
    clamp_u32(v as u32, 1, MAX_TOOL_DIMENSION)
}

/// Read the arguments of the open-image tool: a `path` opens a file;
/// otherwise a canvas named `name` (default `"Untitled"`), 1920 by 1080
/// unless `width` and `height` say otherwise.
pub fn plan_open_image(args: &ToolArgs) -> (r: OpenRequest)
    ensures
        match text_arg(args.entries@, "path"@) {
            Some(p) => r matches OpenRequest::File { path } && path@ == p,
            None => r matches OpenRequest::Canvas { name, width, height } && name@ == match text_arg(
                args.entries@,
                "name"@,
            ) {
                Some(n) => n,
                None => "Untitled"@,
            } && width == canvas_side(args.entries@, "width"@, 1920) && height == canvas_side(
                args.entries@,
                "height"@,
                1080,
            ),
        },
{
    match args.text("path") {
        Some(p) => OpenRequest::File { path: p.to_owned() },
        None => {
            let name = match args.text("name") {
                Some(n) => n,
                None => "Untitled",
            };
            let w = match args.unsigned("width") {
                Some(n) => n,
                None => 1920,
            } as u32;
            let h = match args.unsigned("height") {
                Some(n) => n,
                None => 1080,
            } as u32;
            let width = if w < 1 { 1 } else if w > MAX_TOOL_DIMENSION { MAX_TOOL_DIMENSION } else { w };
            let height = if h < 1 { 1 } else if h > MAX_TOOL_DIMENSION { MAX_TOOL_DIMENSION } else { h };
            OpenRequest::Canvas { name: name.to_owned(), width, height }
        },
    }
}

/// A filter the filter tool applies, with its parameters (`f32` bit patterns).
#[derive(Debug, Clone, Copy, PartialEq, Eq, Structural)]
pub enum FilterChoice {
    BrightnessContrast { brightness: F32Bits, contrast: F32Bits },
    HueSaturation { hue: F32Bits, saturation: F32Bits, lightness: F32Bits },
    Blur { radius: u32 },
    Sharpen { radius: u32, amount: F32Bits },
    Invert,
    Grayscale,
}

/// The number at `key` as an `f32` bit pattern, or `default`.
pub open spec fn single_or(e: Seq<(String, ArgValue)>, key: Seq<char>, default: F32Bits) -> F32Bits {
    match single_arg(e, key) {
        Some(v) => v,
        None => default,
    }
}

/// The non-negative integer at `key`, or `default`.
pub open spec fn unsigned_or(e: Seq<(String, ArgValue)>, key: Seq<char>, default: u64) -> u64 {
    match unsigned_arg(e, key) {
        Some(v) => v,
        None => default,
    }
}

/// The filter named `name`, with its parameters read from `e`.
pub open spec fn filter_named(e: Seq<(String, ArgValue)>, name: Seq<char>) -> Option<FilterChoice> {
    if name == "brightness_contrast"@ {
        Some(FilterChoice::BrightnessContrast { brightness: single_or(e, "brightness"@, 0), contrast: single_or(e, "contrast"@, 0) })
    } else if name == "hue_saturation"@ {
        Some(FilterChoice::HueSaturation {
            hue: single_or(e, "hue"@, 0),
            saturation: single_or(e, "saturation"@, 0),
            lightness: single_or(e, "lightness"@, 0),
        })
    } else if name == "blur"@ {
        Some(FilterChoice::Blur { radius: unsigned_or(e, "radius"@, 3) as u32 })
    } else if name == "sharpen"@ {
        Some(FilterChoice::Sharpen { radius: unsigned_or(e, "radius"@, 1) as u32, amount: single_or(e, "amount"@, 0x3f80_0000) })
    } else if name == "invert"@ {
        Some(FilterChoice::Invert)
    } else if name == "grayscale"@ {
        Some(FilterChoice::Grayscale)
    } else {
        None
    }
}

/// Read the arguments of the filter tool: the document, the layer and the
/// name of the filter.
pub fn plan_apply_filter(args: &ToolArgs) -> (r: Result<(u128, u128, String), String>)
    ensures
        match uuid_arg(args.entries@, "document_id"@) {
            Err(m) => fails_with(r, m),
            Ok(doc) => match uuid_arg(args.entries@, "layer_id"@) {
                Err(m) => fails_with(r, m),
                Ok(layer) => match text_arg(args.entries@, "filter"@) {
                    None => fails_with(r, "missing filter"@),
                    Some(f) => r matches Ok((d, l, name)) && d == doc && l == layer && name@ == f,
                },
            },
        },
{
    let doc = parse_uuid(args, "document_id")?;
    let layer = parse_uuid(args, "layer_id")?;
    match args.text("filter") {
        None => Err("missing filter".to_owned()),
        Some(f) => Ok((doc, layer, f.to_owned())),
    }
}

/// The filter named `name`, its parameters read from the arguments, or
/// `"unknown filter: <name>"`.
pub fn choose_filter(args: &ToolArgs, name: &str) -> (r: Result<FilterChoice, String>)
    ensures
        match filter_named(args.entries@, name@) {
            Some(f) => r == Ok::<FilterChoice, String>(f),
            None => fails_with(r, "unknown filter: "@ + name@),
        },
{
    let single_or = |key: &str, default: F32Bits| -> (v: F32Bits)
        ensures
            v == single_or(args.entries@, key@, default),
        {
            match args.single(key) {
                Some(v) => v,
                None => default,
            }
        };
    if str_eq(name, "brightness_contrast") {
        Ok(FilterChoice::BrightnessContrast { brightness: single_or("brightness", 0), contrast: single_or("contrast", 0) })
    } else if str_eq(name, "hue_saturation") {
        Ok(FilterChoice::HueSaturation {
            hue: single_or("hue", 0),
            saturation: single_or("saturation", 0),
            lightness: single_or("lightness", 0),
        })
    } else if str_eq(name, "blur") {
        let r = match args.unsigned("radius") {
            Some(v) => v,
            None => 3,
        };
        Ok(FilterChoice::Blur { radius: r as u32 })
    } else if str_eq(name, "sharpen") {
        let r = match args.unsigned("radius") {
            Some(v) => v,
            None => 1,
        };
        Ok(FilterChoice::Sharpen { radius: r as u32, amount: single_or("amount", 0x3f80_0000) })
    } else if str_eq(name, "invert") {
        Ok(FilterChoice::Invert)
    } else if str_eq(name, "grayscale") {
        Ok(FilterChoice::Grayscale)
    } else {
        let mut m = "unknown filter: ".to_owned();
        m.append(name);
        Err(m)
    }
}

// ── The batch-export tool ───────────────────────────────

/// The texts among `items`, in order.
pub open spec fn texts_in(items: Seq<ArgValue>) -> Seq<Seq<char>>
    decreases items.len(),
{
    if items.len() == 0 {
        seq![]
    } else {
        let rest = texts_in(items.drop_first());
        match items[0] {
            ArgValue::Text(s) => seq![s@] + rest,
            _ => rest,
        }
    }
}

/// The entries of `v` if it is an object; none otherwise.
pub open spec fn object_entries(v: ArgValue) -> Seq<(String, ArgValue)> {
    match v {
        ArgValue::Object(e) => e@,
        _ => seq![],
    }
}

/// `v` clamped to `lo..=hi`.
pub open spec fn clamp_u64(v: u64, lo: u64, hi: u64) -> u64 {
    if v < lo {
        lo
    } else if v > hi {
        hi
    } else {
        v
    }
}

/// The batch filter the object `v` describes, or why it describes none.
pub open spec fn batch_filter_of(v: ArgValue) -> Result<BatchFilter, Seq<char>> {
    let e = object_entries(v);
    match text_arg(e, "name"@) {
        None => Err("filter missing name"@),
        Some(n) => if n == "invert"@ {
            Ok(BatchFilter::Invert)
        } else if n == "grayscale"@ {
            Ok(BatchFilter::Grayscale)
        } else if n == "brightness_contrast"@ {
            Ok(BatchFilter::BrightnessContrast { brightness: single_or(e, "brightness"@, 0), contrast: single_or(e, "contrast"@, 0) })
        } else if n == "hue_saturation"@ {
            Ok(BatchFilter::HueSaturation {
                hue: single_or(e, "hue"@, 0),
                saturation: single_or(e, "saturation"@, 0),
                lightness: single_or(e, "lightness"@, 0),
            })
        } else if n == "blur"@ {
            Ok(BatchFilter::GaussianBlur { radius: clamp_u64(unsigned_or(e, "radius"@, 2), 1, 500) as u32 })
        } else if n == "sharpen"@ {
            Ok(BatchFilter::Sharpen {
                radius: clamp_u64(unsigned_or(e, "radius"@, 1), 1, 500) as u32,
                amount: single_or(e, "amount"@, 0x3f00_0000),
            })
        } else {
            Err("unknown filter: "@ + n)
        },
    }
}

/// The batch filters the objects `items` describe, or the first reason one describes none.
pub open spec fn batch_filters_of(items: Seq<ArgValue>) -> Result<Seq<BatchFilter>, Seq<char>>
    decreases items.len(),
{
    if items.len() == 0 {
        Ok(seq![])
    } else {
        match batch_filter_of(items[0]) {
            Err(m) => Err(m),
            Ok(f) => match batch_filters_of(items.drop_first()) {
                Err(m) => Err(m),
                Ok(fs) => Ok(seq![f] + fs),
            },
        }
    }
}

/// Read one batch filter from its JSON object.
pub fn parse_batch_filter(v: &ArgValue) -> (r: Result<BatchFilter, String>)
    ensures
        match batch_filter_of(*v) {
            Ok(f) => r == Ok::<BatchFilter, String>(f),
            Err(m) => fails_with(r, m),
        },
{
    let no_entries: Vec<(String, ArgValue)> = Vec::new();
    let e = match v {
        ArgValue::Object(e) => e,
        _ => &no_entries,
    };
    assert(e@ == object_entries(*v));
    let name = match entry_value(e, "name") {
        Some(ArgValue::Text(n)) => n.as_str(),
        _ => return Err("filter missing name".to_owned()),
    };
    let single_or = |key: &str, default: F32Bits| -> (x: F32Bits)
        ensures
            x == single_or(e@, key@, default),
        {
            match entry_value(e, key) {
                Some(ArgValue::Number { single, .. }) => *single,
                _ => default,
            }
        };
    let clamped_radius = |default: u64| -> (x: u32)
        ensures
            x == clamp_u64(unsigned_or(e@, "radius"@, default), 1, 500) as u32,
        {
            let r = match entry_value(e, "radius") {
                Some(ArgValue::Number { unsigned: Some(n), .. }) => *n,
                _ => default,
            };
            (if r < 1 { 1 } else if r > 500 { 500 } else { r }) as u32
        };
    if str_eq(name, "invert") {
        Ok(BatchFilter::Invert)
    } else if str_eq(name, "grayscale") {
        Ok(BatchFilter::Grayscale)
    } else if str_eq(name, "brightness_contrast") {
        Ok(BatchFilter::BrightnessContrast { brightness: single_or("brightness", 0), contrast: single_or("contrast", 0) })
    } else if str_eq(name, "hue_saturation") {
        Ok(BatchFilter::HueSaturation {
            hue: single_or("hue", 0),
            saturation: single_or("saturation", 0),
            lightness: single_or("lightness", 0),
        })
    } else if str_eq(name, "blur") {
        Ok(BatchFilter::GaussianBlur { radius: clamped_radius(2) })
    } else if str_eq(name, "sharpen") {
        Ok(BatchFilter::Sharpen { radius: clamped_radius(1), amount: single_or("amount", 0x3f00_0000) })
    } else {
        let mut m = "unknown filter: ".to_owned();
        m.append(name);
        Err(m)
    }
}

/// What the batch-export tool is asked to do.
#[derive(Debug)]
pub struct BatchRequest {
    pub input_paths: Vec<String>,
    pub output_dir: String,
    pub format: Option<ImageFormat>,
    pub jpeg_quality: u8,
    pub filters: Vec<BatchFilter>,
}

/// Largest number of files in one batch.
pub const MAX_BATCH_SIZE: usize = 1000;

/// The output format asked at `format`: the format of a file with that
/// extension, or why there is none.
pub open spec fn format_arg(e: Seq<(String, ArgValue)>) -> Result<Option<ImageFormat>, Seq<char>> {
    match text_arg(e, "format"@) {
        None => Ok(None),
        Some(s) => match path_extension("file."@ + s) {
            Some(x) => match format_for_extension(x) {
                Some(f) => Ok(Some(f)),
                None => Err("unknown format: "@ + s),
            },
            None => Err("unknown format: "@ + s),
        },
    }
}

/// The input paths asked: the texts of the `input_paths` list.
pub open spec fn input_paths_arg(e: Seq<(String, ArgValue)>) -> Option<Seq<Seq<char>>> {
    match lookup(e, "input_paths"@) {
        Some(ArgValue::List(items)) => Some(texts_in(items@)),
        _ => None,
    }
}

/// The filters asked: those of the `filters` list, none without one.
pub open spec fn filters_arg(e: Seq<(String, ArgValue)>) -> Result<Seq<BatchFilter>, Seq<char>> {
    match lookup(e, "filters"@) {
        Some(ArgValue::List(items)) => batch_filters_of(items@),
        _ => Ok(seq![]),
    }
}

fn texts_of(items: &Vec<ArgValue>) -> (r: Vec<String>)
    ensures
        r@.map_values(|s: String| s@) == texts_in(items@),
{
    let mut out: Vec<String> = Vec::new();
    let mut i: usize = items.len();
    assert(items@.subrange(i as int, items@.len() as int) =~= seq![]);
    while i > 0
        invariant
            i <= items@.len(),
            out@.map_values(|s: String| s@) == texts_in(items@.subrange(i as int, items@.len() as int)),
        decreases i,
    {
        i -= 1;
        let ghost rest = items@.subrange(i as int, items@.len() as int);
        assert(rest.drop_first() =~= items@.subrange(i + 1, items@.len() as int));
        match &items[i] {
            ArgValue::Text(s) => {
                let ghost before = out@;
                out.insert(0, s.clone());
                assert(out@.map_values(|s: String| s@) =~= seq![s@] + before.map_values(|s: String| s@));
            },
            _ => {},
        }
    }
    assert(items@.subrange(0, items@.len() as int) =~= items@);
    out
}

fn filters_of(items: &Vec<ArgValue>) -> (r: Result<Vec<BatchFilter>, String>)
    ensures
        match batch_filters_of(items@) {
            Ok(fs) => r matches Ok(v) && v@ == fs,
            Err(m) => fails_with(r, m),
        },
{
    let mut out: Vec<BatchFilter> = Vec::new();
    let mut i: usize = 0;
    assert(items@.subrange(0, items@.len() as int) =~= items@);
    while i < items.len()
        invariant
            i <= items@.len(),
            batch_filters_of(items@) == match batch_filters_of(items@.subrange(i as int, items@.len() as int)) {
                Ok(fs) => Ok(out@ + fs),
                Err(m) => Err::<Seq<BatchFilter>, Seq<char>>(m),
            },
        decreases items.len() - i,
    {
        let ghost rest = items@.subrange(i as int, items@.len() as int);
        assert(rest.drop_first() =~= items@.subrange(i + 1, items@.len() as int));
        let f = parse_batch_filter(&items[i])?;
        let ghost before = out@;
        out.push(f);
        proof {
            match batch_filters_of(items@.subrange(i + 1, items@.len() as int)) {
                Ok(fs) => {
                    assert(before + (seq![f] + fs) =~= out@ + fs);
                },
                Err(m) => {},
            }
        }
        i += 1;
    }
    assert(items@.subrange(i as int, items@.len() as int) =~= seq![]);
    assert(out@ + seq![] =~= out@);
    Ok(out)
}

/// Read the arguments of the batch-export tool, failing with the message the
/// tool answers: the input paths (at least one, at most `MAX_BATCH_SIZE`),
/// the output directory, the output format named by extension, the JPEG
/// quality (default 90, clamped to `1..=100`) and the filters.
pub fn plan_batch_export(args: &ToolArgs) -> (r: Result<BatchRequest, String>)
    ensures
        match input_paths_arg(args.entries@) {
            None => fails_with(r, "missing input_paths"@),
            Some(paths) => if paths.len() == 0 {
                fails_with(r, "input_paths must not be empty"@)
            } else if paths.len() > MAX_BATCH_SIZE {
                fails_with(r, "batch size "@ + decimal(paths.len()) + " exceeds maximum of 1000"@)
            } else {
                match text_arg(args.entries@, "output_dir"@) {
                    None => fails_with(r, "missing output_dir"@),
                    Some(dir) => match format_arg(args.entries@) {
                        Err(m) => fails_with(r, m),
                        Ok(format) => match filters_arg(args.entries@) {
                            Err(m) => fails_with(r, m),
                            Ok(filters) => r matches Ok(req) && {
                                &&& req.input_paths@.map_values(|s: String| s@) == paths
                                &&& req.output_dir@ == dir
                                &&& req.format == format
                                &&& req.jpeg_quality == clamp_u64(unsigned_or(args.entries@, "quality"@, 90), 1, 100)
                                &&& req.filters@ == filters
                            },
                        },
                    },
                }
            },
        },
{
    let items = match args.get("input_paths") {
        Some(ArgValue::List(items)) => items,
        _ => return Err("missing input_paths".to_owned()),
    };
    let input_paths = texts_of(items);
    assert(input_paths@.len() == texts_in(items@).len());
    if input_paths.len() == 0 {
        return Err("input_paths must not be empty".to_owned());
    }
    if input_paths.len() > MAX_BATCH_SIZE {
        let mut m = "batch size ".to_owned();
        m.append(decimal_string(input_paths.len() as u64).as_str());
        m.append(" exceeds maximum of 1000");
        return Err(m);
    }
    let output_dir = match args.text("output_dir") {
        Some(d) => d.to_owned(),
        None => return Err("missing output_dir".to_owned()),
    };
    let format = match args.text("format") {
        None => None,
        Some(s) => {
            let mut p = "file.".to_owned();
            p.append(s);
            match ImageFormat::from_path(p.as_str()) {
                Some(f) => Some(f),
                None => {
                    let mut m = "unknown format: ".to_owned();
                    m.append(s);
                    return Err(m);
                },
            }
        },
    };
    let q = match args.unsigned("quality") {
        Some(q) => q,
        None => 90,
    };
    let jpeg_quality = (if q < 1 { 1 } else if q > 100 { 100 } else { q }) as u8;
    let filters = match args.get("filters") {
        Some(ArgValue::List(items)) => filters_of(items)?,
        _ => Vec::new(),
    };
    Ok(BatchRequest { input_paths, output_dir, format, jpeg_quality, filters })
}

} // verus!
