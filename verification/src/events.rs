//! The codec's event alphabet: the tags of the fixed descriptor template and
//! the start/text/end events that flow between the descriptor and the XML
//! transport. Unknown tags appear as `None` and are passed over.
use vstd::prelude::*;

verus! {

/// The tags of the descriptor template, plus the root element.
#[derive(PartialEq, Eq, Structural, Clone, Copy, Debug)]
pub enum Tag {
    Root,
    Name,
    MinZoom,
    MaxZoom,
    TileType,
    TileUpdate,
    Url,
    ServerParts,
    InvertY,
    CoordSys,
    LowerCorner,
    UpperCorner,
    ExpireDays,
    BackgroundColor,
}

/// One markup event, with recognized tag names already resolved; `None`
/// stands for a tag outside the template.
pub enum XmlEvent {
    Start(Option<Tag>),
    Text(String),
    End(Option<Tag>),
}

/// The mathematical value of an event.
pub enum EvSpec {
    Start(Option<Tag>),
    Text(Seq<char>),
    End(Option<Tag>),
}

impl View for XmlEvent {
    type V = EvSpec;

    open spec fn view(&self) -> EvSpec {
        match self {
            XmlEvent::Start(t) => EvSpec::Start(*t),
            XmlEvent::Text(s) => EvSpec::Text(s@),
            XmlEvent::End(t) => EvSpec::End(*t),
        }
    }
}

impl DeepView for XmlEvent {
    type V = EvSpec;

    open spec fn deep_view(&self) -> EvSpec {
        self.view()
    }
}

/// The XML name of each template tag.
pub open spec fn tag_text(t: Tag) -> Seq<char> {
    match t {
        Tag::Root => "customMapSource"@,
        Tag::Name => "name"@,
        Tag::MinZoom => "minZoom"@,
        Tag::MaxZoom => "maxZoom"@,
        Tag::TileType => "tileType"@,
        Tag::TileUpdate => "tileUpdate"@,
        Tag::Url => "url"@,
        Tag::ServerParts => "serverParts"@,
        Tag::InvertY => "invertYCoordinate"@,
        Tag::CoordSys => "coordinatesystem"@,
        Tag::LowerCorner => "lowerCorner"@,
        Tag::UpperCorner => "upperCorner"@,
        Tag::ExpireDays => "expireDays"@,
        Tag::BackgroundColor => "backgroundColor"@,
    }
}

pub fn tag_name(t: Tag) -> (r: String)
    ensures
        r@ == tag_text(t),
{
    match t {
        Tag::Root => String::from_str("customMapSource"),
        Tag::Name => String::from_str("name"),
        Tag::MinZoom => String::from_str("minZoom"),
        Tag::MaxZoom => String::from_str("maxZoom"),
        Tag::TileType => String::from_str("tileType"),
        Tag::TileUpdate => String::from_str("tileUpdate"),
        Tag::Url => String::from_str("url"),
        Tag::ServerParts => String::from_str("serverParts"),
        Tag::InvertY => String::from_str("invertYCoordinate"),
        Tag::CoordSys => String::from_str("coordinatesystem"),
        Tag::LowerCorner => String::from_str("lowerCorner"),
        Tag::UpperCorner => String::from_str("upperCorner"),
        Tag::ExpireDays => String::from_str("expireDays"),
        Tag::BackgroundColor => String::from_str("backgroundColor"),
    }
}

/// Which template tag, if any, a name denotes.
pub open spec fn spec_recognize(n: Seq<char>) -> Option<Tag> {
    if n == tag_text(Tag::Root) {
        Some(Tag::Root)
    } else if n == tag_text(Tag::Name) {
        Some(Tag::Name)
    } else if n == tag_text(Tag::MinZoom) {
        Some(Tag::MinZoom)
    } else if n == tag_text(Tag::MaxZoom) {
        Some(Tag::MaxZoom)
    } else if n == tag_text(Tag::TileType) {
        Some(Tag::TileType)
    } else if n == tag_text(Tag::TileUpdate) {
        Some(Tag::TileUpdate)
    } else if n == tag_text(Tag::Url) {
        Some(Tag::Url)
    } else if n == tag_text(Tag::ServerParts) {
        Some(Tag::ServerParts)
    } else if n == tag_text(Tag::InvertY) {
        Some(Tag::InvertY)
    } else if n == tag_text(Tag::CoordSys) {
        Some(Tag::CoordSys)
    } else if n == tag_text(Tag::LowerCorner) {
        Some(Tag::LowerCorner)
    } else if n == tag_text(Tag::UpperCorner) {
        Some(Tag::UpperCorner)
    } else if n == tag_text(Tag::ExpireDays) {
        Some(Tag::ExpireDays)
    } else if n == tag_text(Tag::BackgroundColor) {
        Some(Tag::BackgroundColor)
    } else {
        None
    }
}

pub fn recognize(n: &String) -> (r: Option<Tag>)
    ensures
        r == spec_recognize(n@),
{
    if *n == String::from_str("customMapSource") {
        Some(Tag::Root)
    } else if *n == String::from_str("name") {
        Some(Tag::Name)
    } else if *n == String::from_str("minZoom") {
        Some(Tag::MinZoom)
    } else if *n == String::from_str("maxZoom") {
        Some(Tag::MaxZoom)
    } else if *n == String::from_str("tileType") {
        Some(Tag::TileType)
    } else if *n == String::from_str("tileUpdate") {
        Some(Tag::TileUpdate)
    } else if *n == String::from_str("url") {
        Some(Tag::Url)
    } else if *n == String::from_str("serverParts") {
        Some(Tag::ServerParts)
    } else if *n == String::from_str("invertYCoordinate") {
        Some(Tag::InvertY)
    } else if *n == String::from_str("coordinatesystem") {
        Some(Tag::CoordSys)
    } else if *n == String::from_str("lowerCorner") {
        Some(Tag::LowerCorner)
    } else if *n == String::from_str("upperCorner") {
        Some(Tag::UpperCorner)
    } else if *n == String::from_str("expireDays") {
        Some(Tag::ExpireDays)
    } else if *n == String::from_str("backgroundColor") {
        Some(Tag::BackgroundColor)
    } else {
        None
    }
}

} // verus!
