//! The MCP primitives that the inspector reads, held as plain values: a tool,
//! a resource, a resource's contents, a tool call's result and a server's
//! metadata, each with the JSON form that the protocol gives it.
use vstd::prelude::*;
use crate::json::{entries_model, items_model, lemma_entries_model, lemma_items_model, Json, JsonModel};

verus! {

/// A tool that a server advertises.
pub struct ToolInfo {
    pub name: String,
    pub description: Option<String>,
    /// The tool's input schema, a JSON object.
    pub input_schema: Json,
    /// The whole tool as the protocol writes it.
    pub json: Json,
}

/// A resource that a server advertises.
pub struct ResourceInfo {
    pub uri: String,
    pub description: Option<String>,
    /// The whole resource as the protocol writes it.
    pub json: Json,
}

/// A prompt that a server advertises.
pub struct PromptInfo {
    pub name: String,
    pub description: Option<String>,
    /// The whole prompt as the protocol writes it.
    pub json: Json,
}

/// A notification that the server sent while the shell waited.
pub enum ClientNotification {
    /// A log message: its level as the protocol names it, and its data.
    Log { level: String, data: Json },
    /// A progress report, as the protocol writes it.
    Progress(Json),
    /// A cancelled request, as the protocol writes it.
    Cancelled(Json),
    /// An elicitation that the client declined, with why.
    ElicitationDeclined(String),
}

/// The contents of a resource.
pub enum ResourceBody {
    Text { uri: String, mime_type: Option<String>, text: String },
    Blob { uri: String, mime_type: Option<String>, blob: String },
}

/// One item of a tool call's content.
pub enum ContentItem {
    Text(String),
    /// Base64 image data.
    Image(String),
    /// Base64 audio data.
    Audio(String),
    Resource(ResourceBody),
    ResourceLink { uri: String, mime_type: Option<String> },
}

/// The result of a tool call.
pub struct ToolCallResult {
    pub is_error: Option<bool>,
    pub structured_content: Option<Json>,
    pub content: Vec<ContentItem>,
    /// The whole result as the protocol writes it.
    pub json: Json,
}

/// What a server says of itself when a session starts.
pub struct ServerIntro {
    pub name: String,
    pub version: String,
    /// The server's implementation record as the protocol writes it.
    pub server: Json,
    pub protocol_version: Json,
    pub capabilities: Json,
    /// The whole initialize result as the protocol writes it.
    pub json: Json,
}

/// The view of an optional string.
pub open spec fn opt_view(o: Option<String>) -> Option<Seq<char>> {
    match o {
        Some(s) => Some(s@),
        None => None,
    }
}

/// The model of an optional JSON value.
pub open spec fn opt_json(o: Option<Json>) -> Option<JsonModel> {
    match o {
        Some(j) => Some(j@),
        None => None,
    }
}

/// The mathematical value of a `ToolInfo`.
pub struct ToolModel {
    pub name: Seq<char>,
    pub description: Option<Seq<char>>,
    pub input_schema: JsonModel,
    pub json: JsonModel,
}

impl View for ToolInfo {
    type V = ToolModel;

    open spec fn view(&self) -> ToolModel {
        ToolModel {
            name: self.name@,
            description: opt_view(self.description),
            input_schema: self.input_schema@,
            json: self.json@,
        }
    }
}

/// The mathematical value of a `ResourceInfo`.
pub struct ResourceModel {
    pub uri: Seq<char>,
    pub description: Option<Seq<char>>,
    pub json: JsonModel,
}

impl View for ResourceInfo {
    type V = ResourceModel;

    open spec fn view(&self) -> ResourceModel {
        ResourceModel { uri: self.uri@, description: opt_view(self.description), json: self.json@ }
    }
}

/// The mathematical value of a `ResourceBody`.
pub enum ResourceBodyModel {
    Text { uri: Seq<char>, mime_type: Option<Seq<char>>, text: Seq<char> },
    Blob { uri: Seq<char>, mime_type: Option<Seq<char>>, blob: Seq<char> },
}

impl View for ResourceBody {
    type V = ResourceBodyModel;

    open spec fn view(&self) -> ResourceBodyModel {
        match self {
            ResourceBody::Text { uri, mime_type, text } => ResourceBodyModel::Text {
                uri: uri@,
                mime_type: opt_view(*mime_type),
                text: text@,
            },
            ResourceBody::Blob { uri, mime_type, blob } => ResourceBodyModel::Blob {
                uri: uri@,
                mime_type: opt_view(*mime_type),
                blob: blob@,
            },
        }
    }
}

/// The mathematical value of a `ContentItem`.
pub enum ContentModel {
    Text(Seq<char>),
    Image(Seq<char>),
    Audio(Seq<char>),
    Resource(ResourceBodyModel),
    ResourceLink { uri: Seq<char>, mime_type: Option<Seq<char>> },
}

impl View for ContentItem {
    type V = ContentModel;

    open spec fn view(&self) -> ContentModel {
        match self {
            ContentItem::Text(t) => ContentModel::Text(t@),
            ContentItem::Image(d) => ContentModel::Image(d@),
            ContentItem::Audio(d) => ContentModel::Audio(d@),
            ContentItem::Resource(b) => ContentModel::Resource(b@),
            ContentItem::ResourceLink { uri, mime_type } => ContentModel::ResourceLink {
                uri: uri@,
                mime_type: opt_view(*mime_type),
            },
        }
    }
}

/// The mathematical value of a `ToolCallResult`.
pub struct ToolCallModel {
    pub is_error: Option<bool>,
    pub structured_content: Option<JsonModel>,
    pub content: Seq<ContentModel>,
    pub json: JsonModel,
}

impl View for ToolCallResult {
    type V = ToolCallModel;

    open spec fn view(&self) -> ToolCallModel {
        ToolCallModel {
            is_error: self.is_error,
            structured_content: opt_json(self.structured_content),
            content: self.content@.map_values(|c: ContentItem| c@),
            json: self.json@,
        }
    }
}

/// The mathematical value of a `ServerIntro`.
pub struct ServerIntroModel {
    pub name: Seq<char>,
    pub version: Seq<char>,
    pub server: JsonModel,
    pub protocol_version: JsonModel,
    pub capabilities: JsonModel,
    pub json: JsonModel,
}

impl View for ServerIntro {
    type V = ServerIntroModel;

    open spec fn view(&self) -> ServerIntroModel {
        ServerIntroModel {
            name: self.name@,
            version: self.version@,
            server: self.server@,
            protocol_version: self.protocol_version@,
            capabilities: self.capabilities@,
            json: self.json@,
        }
    }
}

impl Json {
    /// A copy of this value.
    #[verifier::loop_isolation(false)]
    pub fn deep_clone(&self) -> (r: Json)
        ensures
            r@ == self@,
        decreases self,
    {
        match self {
            Json::Null => Json::Null,
            Json::Bool(b) => Json::Bool(*b),
            Json::Number(n) => Json::Number(n.clone()),
            Json::Str(s) => Json::Str(s.clone()),
            Json::Array(items) => {
                let mut out: Vec<Json> = Vec::new();
                let mut i: usize = 0;
                proof {
                    lemma_items_model(items@);
                }
                while i < items.len()
                    invariant
                        i <= items.len(),
                        items_model(items@).len() == items@.len(),
                        forall|k: int| 0 <= k < items@.len() ==> #[trigger] items_model(items@)[k] == items@[k]@,
                        items_model(out@) == items_model(items@).take(i as int),
                    decreases items.len() - i,
                {
                    proof {
                        assert(decreases_to!(items => items@[i as int]));
                    }
                    let c = items[i].deep_clone();
                    let ghost before = out@;
                    out.push(c);
                    proof {
                        assert(out@.drop_last() =~= before);
                        assert(items_model(items@).take(i + 1) =~= items_model(items@).take(i as int).push(items@[i as int]@));
                    }
                    i = i + 1;
                }
                assert(items_model(items@).take(i as int) =~= items_model(items@));
                Json::Array(out)
            },
            Json::Object(es) => {
                let mut out: Vec<(String, Json)> = Vec::new();
                let mut i: usize = 0;
                proof {
                    lemma_entries_model(es@);
                }
                while i < es.len()
                    invariant
                        i <= es.len(),
                        entries_model(es@).len() == es@.len(),
                        forall|k: int| 0 <= k < es@.len() ==> #[trigger] entries_model(es@)[k] == (es@[k].0@, es@[k].1@),
                        entries_model(out@) == entries_model(es@).take(i as int),
                    decreases es.len() - i,
                {
                    proof {
                        assert(decreases_to!(es => es@[i as int].1));
                    }
                    let c = es[i].1.deep_clone();
                    let k = es[i].0.clone();
                    let ghost before = out@;
                    out.push((k, c));
                    proof {
                        assert(out@.drop_last() =~= before);
                        assert(entries_model(es@).take(i + 1) =~= entries_model(es@).take(i as int).push(entries_model(es@)[i as int]));
                    }
                    i = i + 1;
                }
                assert(entries_model(es@).take(i as int) =~= entries_model(es@));
                Json::Object(out)
            },
        }
    }
}

} // verus!
