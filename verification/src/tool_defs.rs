//! The tools the editor's server offers to its clients, each with the JSON
//! schema of its input, held as plain values.
use vstd::prelude::*;

use crate::mcp::texts;

verus! {

/// One property of a tool's input: its JSON type, what it holds, the values
/// it may take (none listed: any), and for an array the schema of its items.
#[derive(Debug)]
pub struct PropertySchema {
    pub name: String,
    pub kind: String,
    pub description: Option<String>,
    pub options: Vec<String>,
    pub items: Option<ItemsSchema>,
}

/// The schema of the items of an array: their JSON type and, for objects,
/// their properties.
#[derive(Debug)]
pub struct ItemsSchema {
    pub kind: String,
    pub properties: Vec<PropertySchema>,
}

/// The schema of a tool's input: a JSON object, the properties it must
/// have, and all the properties it may have.
#[derive(Debug)]
pub struct InputSchema {
    pub kind: String,
    pub required: Vec<String>,
    pub properties: Vec<PropertySchema>,
}

/// A tool as listed to clients.
#[derive(Debug)]
pub struct ToolDef {
    pub name: String,
    pub description: String,
    pub input_schema: InputSchema,
}

/// A property without items: name, type, description and allowed values.
pub type PlainProperty = (Seq<char>, Seq<char>, Option<Seq<char>>, Seq<Seq<char>>);

/// A property, with the type and properties of its items if it is an array.
pub type Property = (Seq<char>, Seq<char>, Option<Seq<char>>, Seq<Seq<char>>, Option<(Seq<char>, Seq<PlainProperty>)>);

/// The text an optional string holds.
pub open spec fn opt_text(o: Option<String>) -> Option<Seq<char>> {
    match o {
        Some(s) => Some(s@),
        None => None,
    }
}

/// `v` holds the texts `m`, in order.
pub open spec fn holds_texts(v: Seq<String>, m: Seq<Seq<char>>) -> bool {
    &&& v.len() == m.len()
    &&& forall|k: int| 0 <= k < m.len() ==> (#[trigger] v[k])@ == m[k]
}

/// `p` is the property `m`, with no items.
pub open spec fn plain_property(p: PropertySchema, m: PlainProperty) -> bool {
    &&& p.name@ == m.0
    &&& p.kind@ == m.1
    &&& opt_text(p.description) == m.2
    &&& holds_texts(p.options@, m.3)
    &&& p.items is None
}

/// `ps` are the properties `m` without items, in order.
pub open spec fn plain_properties(ps: Seq<PropertySchema>, m: Seq<PlainProperty>) -> bool {
    &&& ps.len() == m.len()
    &&& forall|k: int| 0 <= k < m.len() ==> plain_property(#[trigger] ps[k], m[k])
}

/// `p` is the property `m`.
pub open spec fn property(p: PropertySchema, m: Property) -> bool {
    &&& p.name@ == m.0
    &&& p.kind@ == m.1
    &&& opt_text(p.description) == m.2
    &&& holds_texts(p.options@, m.3)
    &&& match (p.items, m.4) {
        (None, None) => true,
        (Some(it), Some((kind, props))) => it.kind@ == kind && plain_properties(it.properties@, props),
        _ => false,
    }
}

/// `ps` are the properties `m`, in order.
pub open spec fn properties(ps: Seq<PropertySchema>, m: Seq<Property>) -> bool {
    &&& ps.len() == m.len()
    &&& forall|k: int| 0 <= k < m.len() ==> property(#[trigger] ps[k], m[k])
}

/// A property with a description and no listed values.
pub open spec fn described(name: Seq<char>, kind: Seq<char>, description: Seq<char>) -> Property {
    (name, kind, Some(description), seq![], None)
}

/// A property with only a name and a type.
pub open spec fn bare(name: Seq<char>, kind: Seq<char>) -> Property {
    (name, kind, None, seq![], None)
}

/// The same, for the items of an array.
pub open spec fn bare_item(name: Seq<char>, kind: Seq<char>) -> PlainProperty {
    (name, kind, None, seq![])
}

/// The names of the tools, in the order they are listed.
pub open spec fn tool_names() -> Seq<Seq<char>> {
    seq![
        "rasa_open_image"@,
        "rasa_edit_layer"@,
        "rasa_apply_filter"@,
        "rasa_get_document"@,
        "rasa_export"@,
        "rasa_batch_export"@,
    ]
}

/// What each tool says it does.
pub open spec fn tool_descriptions() -> Seq<Seq<char>> {
    seq![
        "Open an image file or create a new blank document"@,
        "Add, modify, or transform layers in a document"@,
        "Apply filters or adjustments to a layer"@,
        "Get document state: layers, dimensions, history"@,
        "Export document to an image file (PNG, JPEG, WebP, TIFF)"@,
        "Batch process multiple image files: import, apply filters, export"@,
    ]
}

/// The properties each tool's input must have.
pub open spec fn tool_required() -> Seq<Seq<Seq<char>>> {
    seq![
        seq![],
        seq!["document_id"@, "action"@],
        seq!["document_id"@, "layer_id"@, "filter"@],
        seq![],
        seq!["document_id"@, "path"@],
        seq!["input_paths"@, "output_dir"@],
    ]
}

/// The properties of the open tool's input.
pub open spec fn open_properties() -> Seq<Property> {
    seq![
        described("path"@, "string"@, "File path to open (PNG, JPEG, WebP, TIFF). Omit to create blank."@),
        described("name"@, "string"@, "Document name (for new documents)"@),
        described("width"@, "integer"@, "Width in pixels (for new documents)"@),
        described("height"@, "integer"@, "Height in pixels (for new documents)"@),
    ]
}

/// The properties of the layer-editing tool's input.
pub open spec fn edit_layer_properties() -> Seq<Property> {
    seq![
        described("document_id"@, "string"@, "Document UUID"@),
        (
            "action"@,
            "string"@,
            Some("Layer operation to perform"@),
            seq![
                "add"@,
                "remove"@,
                "rename"@,
                "set_opacity"@,
                "set_blend_mode"@,
                "set_visibility"@,
                "duplicate"@,
                "reorder"@,
                "merge_down"@,
                "add_adjustment"@,
                "set_adjustment"@,
            ],
            None,
        ),
        described("layer_id"@, "string"@, "Target layer UUID (for existing layers)"@),
        described("name"@, "string"@, "Layer name (for add/rename)"@),
        described("opacity"@, "number"@, "Opacity 0.0-1.0 (for set_opacity)"@),
        described("blend_mode"@, "string"@, "Blend mode name (for set_blend_mode)"@),
        described("visible"@, "boolean"@, "Visibility (for set_visibility)"@),
        described("index"@, "integer"@, "Target index (for reorder)"@),
        (
            "adjustment_type"@,
            "string"@,
            Some("Adjustment type (for add_adjustment/set_adjustment)"@),
            seq!["brightness_contrast"@, "hue_saturation"@, "curves"@, "levels"@],
            None,
        ),
        described("brightness"@, "number"@, "Brightness -1.0 to 1.0"@),
        described("contrast"@, "number"@, "Contrast -1.0 to 1.0"@),
        described("hue"@, "number"@, "Hue shift -180 to 180 degrees"@),
        described("saturation"@, "number"@, "Saturation -1.0 to 1.0"@),
        described("lightness"@, "number"@, "Lightness -1.0 to 1.0"@),
        described("black"@, "number"@, "Black point 0.0-1.0 (for levels)"@),
        described("white"@, "number"@, "White point 0.0-1.0 (for levels)"@),
        described("gamma"@, "number"@, "Gamma 0.1-10.0 (for levels)"@),
    ]
}

/// The properties of the filter tool's input.
pub open spec fn apply_filter_properties() -> Seq<Property> {
    seq![
        described("document_id"@, "string"@, "Document UUID"@),
        described("layer_id"@, "string"@, "Layer UUID"@),
        (
            "filter"@,
            "string"@,
            Some("Filter to apply"@),
            seq!["brightness_contrast"@, "hue_saturation"@, "blur"@, "sharpen"@, "invert"@, "grayscale"@],
            None,
        ),
        bare("brightness"@, "number"@),
        bare("contrast"@, "number"@),
        bare("hue"@, "number"@),
        bare("saturation"@, "number"@),
        bare("lightness"@, "number"@),
        bare("radius"@, "integer"@),
        bare("amount"@, "number"@),
    ]
}

/// The properties of the document-inspecting tool's input.
pub open spec fn get_document_properties() -> Seq<Property> {
    seq![described("document_id"@, "string"@, "Document UUID. Omit to list all open documents."@)]
}

/// The properties of the export tool's input.
pub open spec fn export_properties() -> Seq<Property> {
    seq![
        described("document_id"@, "string"@, "Document UUID"@),
        described("path"@, "string"@, "Output file path"@),
        described("quality"@, "integer"@, "JPEG quality 1-100 (default 90)"@),
    ]
}

/// The properties of each filter step of a batch.
pub open spec fn batch_filter_properties() -> Seq<PlainProperty> {
    seq![
        (
            "name"@,
            "string"@,
            None,
            seq!["invert"@, "grayscale"@, "brightness_contrast"@, "hue_saturation"@, "blur"@, "sharpen"@],
        ),
        bare_item("brightness"@, "number"@),
        bare_item("contrast"@, "number"@),
        bare_item("hue"@, "number"@),
        bare_item("saturation"@, "number"@),
        bare_item("lightness"@, "number"@),
        bare_item("radius"@, "number"@),
        bare_item("amount"@, "number"@),
    ]
}

/// The properties of the batch tool's input.
pub open spec fn batch_export_properties() -> Seq<Property> {
    seq![
        ("input_paths"@, "array"@, Some("List of input file paths"@), seq![], Some(("string"@, seq![]))),
        described("output_dir"@, "string"@, "Output directory path"@),
        (
            "format"@,
            "string"@,
            Some("Output format (default: keep original)"@),
            seq!["png"@, "jpeg"@, "webp"@, "tiff"@, "bmp"@, "gif"@, "psd"@],
            None,
        ),
        described("quality"@, "integer"@, "JPEG quality 1-100 (default 90)"@),
        (
            "filters"@,
            "array"@,
            Some("Filters to apply to each image in order"@),
            seq![],
            Some(("object"@, batch_filter_properties())),
        ),
    ]
}

/// The properties of each tool's input, in the order the tools are listed.
pub open spec fn tool_properties() -> Seq<Seq<Property>> {
    seq![
        open_properties(),
        edit_layer_properties(),
        apply_filter_properties(),
        get_document_properties(),
        export_properties(),
        batch_export_properties(),
    ]
}

/// `t` is the tool number `i` of the list.
pub open spec fn is_tool(t: ToolDef, i: int) -> bool {
    &&& t.name@ == tool_names()[i]
    &&& t.description@ == tool_descriptions()[i]
    &&& t.input_schema.kind@ == "object"@
    &&& holds_texts(t.input_schema.required@, tool_required()[i])
    &&& properties(t.input_schema.properties@, tool_properties()[i])
}

fn described_property(name: &str, kind: &str, description: &str) -> (r: PropertySchema)
    ensures
        property(r, described(name@, kind@, description@)),
{
    PropertySchema {
        name: name.to_owned(),
        kind: kind.to_owned(),
        description: Some(description.to_owned()),
        options: Vec::new(),
        items: None,
    }
}

fn bare_property(name: &str, kind: &str) -> (r: PropertySchema)
    ensures
        property(r, bare(name@, kind@)),
        plain_property(r, bare_item(name@, kind@)),
{
    PropertySchema { name: name.to_owned(), kind: kind.to_owned(), description: None, options: Vec::new(), items: None }
}

fn choice_property(name: &str, kind: &str, description: Option<&str>, options: &[&str]) -> (r: PropertySchema)
    ensures
        r.name@ == name@,
        r.kind@ == kind@,
        opt_text(r.description) == match description {
            Some(d) => Some(d@),
            None => None::<Seq<char>>,
        },
        r.options@.len() == options@.len(),
        forall|k: int| 0 <= k < options@.len() ==> #[trigger] r.options@[k]@ == options@[k]@,
        r.items is None,
{
    let description = match description {
        Some(d) => Some(d.to_owned()),
        None => None,
    };
    PropertySchema { name: name.to_owned(), kind: kind.to_owned(), description, options: texts(options), items: None }
}

fn array_property(name: &str, description: &str, items: ItemsSchema) -> (r: PropertySchema)
    ensures
        r.name@ == name@,
        r.kind@ == "array"@,
        opt_text(r.description) == Some(description@),
        r.options@.len() == 0,
        r.items == Some(items),
{
    PropertySchema {
        name: name.to_owned(),
        kind: "array".to_owned(),
        description: Some(description.to_owned()),
        options: Vec::new(),
        items: Some(items),
    }
}

fn input_schema(required: &[&str], properties: Vec<PropertySchema>) -> (r: InputSchema)
    ensures
        r.kind@ == "object"@,
        r.required@.len() == required@.len(),
        forall|k: int| 0 <= k < required@.len() ==> #[trigger] r.required@[k]@ == required@[k]@,
        r.properties == properties,
{
    InputSchema { kind: "object".to_owned(), required: texts(required), properties }
}

/// The six tools, in the order `tool_names` gives, each with its
/// description and input schema.
pub fn list_tools() -> (r: Vec<ToolDef>)
    ensures
        r@.len() == 6,
        forall|i: int| 0 <= i < 6 ==> is_tool(#[trigger] r@[i], i),
{
    let open = ToolDef {
        name: "rasa_open_image".to_owned(),
        description: "Open an image file or create a new blank document".to_owned(),
        input_schema: input_schema(
            &[],
            vec![
                described_property("path", "string", "File path to open (PNG, JPEG, WebP, TIFF). Omit to create blank."),
                described_property("name", "string", "Document name (for new documents)"),
                described_property("width", "integer", "Width in pixels (for new documents)"),
                described_property("height", "integer", "Height in pixels (for new documents)"),
            ],
        ),
    };
    assert(properties(open.input_schema.properties@, open_properties()));
    let edit = ToolDef {
        name: "rasa_edit_layer".to_owned(),
        description: "Add, modify, or transform layers in a document".to_owned(),
        input_schema: input_schema(
            &["document_id", "action"],
            vec![
                described_property("document_id", "string", "Document UUID"),
                choice_property(
                    "action",
                    "string",
                    Some("Layer operation to perform"),
                    &[
                        "add",
                        "remove",
                        "rename",
                        "set_opacity",
                        "set_blend_mode",
                        "set_visibility",
                        "duplicate",
                        "reorder",
                        "merge_down",
                        "add_adjustment",
                        "set_adjustment",
                    ],
                ),
                described_property("layer_id", "string", "Target layer UUID (for existing layers)"),
                described_property("name", "string", "Layer name (for add/rename)"),
                described_property("opacity", "number", "Opacity 0.0-1.0 (for set_opacity)"),
                described_property("blend_mode", "string", "Blend mode name (for set_blend_mode)"),
                described_property("visible", "boolean", "Visibility (for set_visibility)"),
                described_property("index", "integer", "Target index (for reorder)"),
                choice_property(
                    "adjustment_type",
                    "string",
                    Some("Adjustment type (for add_adjustment/set_adjustment)"),
                    &["brightness_contrast", "hue_saturation", "curves", "levels"],
                ),
                described_property("brightness", "number", "Brightness -1.0 to 1.0"),
                described_property("contrast", "number", "Contrast -1.0 to 1.0"),
                described_property("hue", "number", "Hue shift -180 to 180 degrees"),
                described_property("saturation", "number", "Saturation -1.0 to 1.0"),
                described_property("lightness", "number", "Lightness -1.0 to 1.0"),
                described_property("black", "number", "Black point 0.0-1.0 (for levels)"),
                described_property("white", "number", "White point 0.0-1.0 (for levels)"),
                described_property("gamma", "number", "Gamma 0.1-10.0 (for levels)"),
            ],
        ),
    };
    assert(properties(edit.input_schema.properties@, edit_layer_properties()));
    let filter = ToolDef {
        name: "rasa_apply_filter".to_owned(),
        description: "Apply filters or adjustments to a layer".to_owned(),
        input_schema: input_schema(
            &["document_id", "layer_id", "filter"],
            vec![
                described_property("document_id", "string", "Document UUID"),
                described_property("layer_id", "string", "Layer UUID"),
                choice_property(
                    "filter",
                    "string",
                    Some("Filter to apply"),
                    &["brightness_contrast", "hue_saturation", "blur", "sharpen", "invert", "grayscale"],
                ),
                bare_property("brightness", "number"),
                bare_property("contrast", "number"),
                bare_property("hue", "number"),
                bare_property("saturation", "number"),
                bare_property("lightness", "number"),
                bare_property("radius", "integer"),
                bare_property("amount", "number"),
            ],
        ),
    };
    assert(properties(filter.input_schema.properties@, apply_filter_properties()));
    let inspect = ToolDef {
        name: "rasa_get_document".to_owned(),
        description: "Get document state: layers, dimensions, history".to_owned(),
        input_schema: input_schema(
            &[],
            vec![described_property("document_id", "string", "Document UUID. Omit to list all open documents.")],
        ),
    };
    assert(properties(inspect.input_schema.properties@, get_document_properties()));
    let export = ToolDef {
        name: "rasa_export".to_owned(),
        description: "Export document to an image file (PNG, JPEG, WebP, TIFF)".to_owned(),
        input_schema: input_schema(
            &["document_id", "path"],
            vec![
                described_property("document_id", "string", "Document UUID"),
                described_property("path", "string", "Output file path"),
                described_property("quality", "integer", "JPEG quality 1-100 (default 90)"),
            ],
        ),
    };
    assert(properties(export.input_schema.properties@, export_properties()));
    let step = ItemsSchema {
        kind: "object".to_owned(),
        properties: vec![
            choice_property(
                "name",
                "string",
                None,
                &["invert", "grayscale", "brightness_contrast", "hue_saturation", "blur", "sharpen"],
            ),
            bare_property("brightness", "number"),
            bare_property("contrast", "number"),
            bare_property("hue", "number"),
            bare_property("saturation", "number"),
            bare_property("lightness", "number"),
            bare_property("radius", "number"),
            bare_property("amount", "number"),
        ],
    };
    assert(plain_properties(step.properties@, batch_filter_properties()));
    let paths = ItemsSchema { kind: "string".to_owned(), properties: Vec::new() };
    assert(plain_properties(paths.properties@, seq![]));
    let batch = ToolDef {
        name: "rasa_batch_export".to_owned(),
        description: "Batch process multiple image files: import, apply filters, export".to_owned(),
        input_schema: input_schema(
            &["input_paths", "output_dir"],
            vec![
                array_property("input_paths", "List of input file paths", paths),
                described_property("output_dir", "string", "Output directory path"),
                choice_property(
                    "format",
                    "string",
                    Some("Output format (default: keep original)"),
                    &["png", "jpeg", "webp", "tiff", "bmp", "gif", "psd"],
                ),
                described_property("quality", "integer", "JPEG quality 1-100 (default 90)"),
                array_property("filters", "Filters to apply to each image in order", step),
            ],
        ),
    };
    assert(properties(batch.input_schema.properties@, batch_export_properties()));
    let r = vec![open, edit, filter, inspect, export, batch];
    assert(is_tool(r@[0], 0));
    assert(is_tool(r@[1], 1));
    assert(is_tool(r@[2], 2));
    assert(is_tool(r@[3], 3));
    assert(is_tool(r@[4], 4));
    assert(is_tool(r@[5], 5));
    r
}

} // verus!
