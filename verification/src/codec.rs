//! The descriptor codec: a small state machine walks the markup events of a
//! descriptor document, remembers which template tag is awaiting its text,
//! and collects one text per recognized tag. Reading validates the collected
//! texts field by field; saving renders the fixed template with the
//! descriptor's texts substituted. The tag-to-field table below is the
//! single source of truth for both directions.
use crate::descriptor::{
    clamp_i64, wf, DescModel, MapDescriptor, LAT_MICRO_MAX, LAT_MICRO_MIN, LON_MICRO_MAX, LON_MICRO_MIN, ZOOM_MAX,
};
use crate::events::{EvSpec, Tag, XmlEvent};
use crate::num::{
    dec_micro, dec_rep, fmt_micro, format_micro, format_u64, parse_int_range, parse_micro_range,
    pow10, spec_parse_digits, spec_parse_int,
};
use crate::text::{
    first_nonws, first_wsc, has_sub, is_ws, join_sp, lower_seq, spec_trim, split_sp, trim_str,
    upper_seq,
};
use vstd::prelude::*;

verus! {

/// The fields a fatal validation error can cite.
#[derive(PartialEq, Eq, Structural, Clone, Copy, Debug)]
pub enum Field {
    Id,
    Name,
    Zoom,
    TileType,
    Url,
}

/// A fatal parse failure: the offending field and the descriptor id.
#[derive(Debug)]
pub struct ValidationError {
    pub field: Field,
    pub map_id: String,
}

/// A recoverable event: the named field fell back to its default.
#[derive(PartialEq, Eq, Structural, Clone, Copy, Debug)]
pub enum Warning {
    MinZoom,
    MaxZoom,
    InvertY,
    LowerCorner,
    UpperCorner,
    ExpireDays,
}

/// The text collected for each recognized tag, `None` where the document
/// has no such tag (or only empty text).
pub struct FieldTexts {
    pub name: Option<Seq<char>>,
    pub min_zoom: Option<Seq<char>>,
    pub max_zoom: Option<Seq<char>>,
    pub tile_type: Option<Seq<char>>,
    pub url: Option<Seq<char>>,
    pub server_parts: Option<Seq<char>>,
    pub invert_y: Option<Seq<char>>,
    pub coord_sys: Option<Seq<char>>,
    pub lower_corner: Option<Seq<char>>,
    pub upper_corner: Option<Seq<char>>,
    pub expire_days: Option<Seq<char>>,
}

pub open spec fn empty_texts() -> FieldTexts {
    FieldTexts {
        name: None,
        min_zoom: None,
        max_zoom: None,
        tile_type: None,
        url: None,
        server_parts: None,
        invert_y: None,
        coord_sys: None,
        lower_corner: None,
        upper_corner: None,
        expire_days: None,
    }
}

/// Whether a tag maps to a descriptor field on the read path; `tileUpdate`
/// and `backgroundColor` are structure only, as is the root element.
pub open spec fn is_read_field(t: Tag) -> bool {
    match t {
        Tag::Root => false,
        Tag::TileUpdate => false,
        Tag::BackgroundColor => false,
        _ => true,
    }
}

/// The tag-to-field table: records `v` as the text of field `t`.
pub open spec fn set_field(ft: FieldTexts, t: Tag, v: Seq<char>) -> FieldTexts {
    match t {
        Tag::Name => FieldTexts { name: Some(v), ..ft },
        Tag::MinZoom => FieldTexts { min_zoom: Some(v), ..ft },
        Tag::MaxZoom => FieldTexts { max_zoom: Some(v), ..ft },
        Tag::TileType => FieldTexts { tile_type: Some(v), ..ft },
        Tag::Url => FieldTexts { url: Some(v), ..ft },
        Tag::ServerParts => FieldTexts { server_parts: Some(v), ..ft },
        Tag::InvertY => FieldTexts { invert_y: Some(v), ..ft },
        Tag::CoordSys => FieldTexts { coord_sys: Some(v), ..ft },
        Tag::LowerCorner => FieldTexts { lower_corner: Some(v), ..ft },
        Tag::UpperCorner => FieldTexts { upper_corner: Some(v), ..ft },
        Tag::ExpireDays => FieldTexts { expire_days: Some(v), ..ft },
        _ => ft,
    }
}

/// The collector's state: which recognized tag, if any, awaits its text.
pub struct CaptureState {
    pub active: Option<Tag>,
    pub texts: FieldTexts,
}

pub open spec fn initial_capture() -> CaptureState {
    CaptureState { active: None, texts: empty_texts() }
}

/// One step of the collector. A recognized field tag arms the collector; the
/// next text event lands in that field, trimmed, empty text counting as
/// absent; an end tag or an unrecognized start disarms it.
pub open spec fn capture_step(st: CaptureState, ev: EvSpec) -> CaptureState {
    match ev {
        EvSpec::Start(ot) => CaptureState {
            active: match ot {
                Some(t) => if is_read_field(t) {
                    Some(t)
                } else {
                    None
                },
                None => None,
            },
            texts: st.texts,
        },
        EvSpec::Text(t) => match st.active {
            Some(tag) => CaptureState {
                active: None,
                texts: if spec_trim(t).len() > 0 {
                    set_field(st.texts, tag, spec_trim(t))
                } else {
                    st.texts
                },
            },
            None => st,
        },
        EvSpec::End(_) => CaptureState { active: None, texts: st.texts },
    }
}

pub open spec fn capture_from(st: CaptureState, evs: Seq<EvSpec>) -> CaptureState
    decreases evs.len(),
{
    if evs.len() == 0 {
        st
    } else {
        capture_step(capture_from(st, evs.drop_last()), evs.last())
    }
}

/// The collector's final state over a whole event sequence.
pub open spec fn capture(evs: Seq<EvSpec>) -> CaptureState {
    capture_from(initial_capture(), evs)
}

pub proof fn lemma_capture_from_concat(st: CaptureState, a: Seq<EvSpec>, b: Seq<EvSpec>)
    ensures
        capture_from(st, a + b) == capture_from(capture_from(st, a), b),
    decreases b.len(),
{
    if b.len() == 0 {
        assert(a + b =~= a);
    } else {
        lemma_capture_from_concat(st, a, b.drop_last());
        assert((a + b).drop_last() =~= a + b.drop_last());
        assert((a + b).last() == b.last());
    }
}

// ---------------------------------------------------------------------------
// Read rules, one spec function per field
// ---------------------------------------------------------------------------

pub open spec fn opt_text(t: Option<Seq<char>>) -> Seq<char> {
    match t {
        Some(s) => s,
        None => Seq::empty(),
    }
}

/// Rule for `name`: required and non-empty.
pub open spec fn name_ok(t: Option<Seq<char>>) -> bool {
    t matches Some(s) && s.len() > 0
}

pub open spec fn clamp_zoom_int(v: int) -> u8 {
    if v < 0 {
        0
    } else if v > ZOOM_MAX {
        ZOOM_MAX
    } else {
        v as u8
    }
}

/// Rule for `minZoom` / `maxZoom`: absent means the default, unparsable
/// means the default with a warning, in-range values are clamped.
pub open spec fn zoom_value(t: Option<Seq<char>>, default: u8) -> u8 {
    match t {
        None => default,
        Some(s) => match spec_parse_int(s) {
            Some(v) => clamp_zoom_int(v),
            None => default,
        },
    }
}

pub open spec fn zoom_warn(t: Option<Seq<char>>) -> bool {
    t matches Some(s) && spec_parse_int(s) is None
}

/// Rule for `tileType`: required, case-folded, `jpg` or `png` only.
pub open spec fn tile_ok(t: Option<Seq<char>>) -> bool {
    t matches Some(s) && (lower_seq(s) == "jpg"@ || lower_seq(s) == "png"@)
}

/// Rule for `url`: required, with all three coordinate placeholders.
pub open spec fn url_ok(t: Option<Seq<char>>) -> bool {
    t matches Some(s) && has_sub(s, "{$x}"@) && has_sub(s, "{$y}"@) && has_sub(s, "{$z}"@)
}

/// Rule for `serverParts`: split on single spaces when present, else absent.
pub open spec fn parts_value(t: Option<Seq<char>>) -> Option<Seq<Seq<char>>> {
    match t {
        Some(s) => Some(split_sp(s)),
        None => None,
    }
}

/// Rule for `invertYCoordinate`: only the exact words count; anything else
/// is `false`, with a warning when a tag was present but unrecognized.
pub open spec fn invert_value(t: Option<Seq<char>>) -> bool {
    t matches Some(s) && s == "true"@
}

pub open spec fn invert_warn(t: Option<Seq<char>>) -> bool {
    t matches Some(s) && s != "true"@ && s != "false"@
}

/// Rule for `coordinatesystem`: uppercased, defaulting when absent.
pub open spec fn coord_sys_value(t: Option<Seq<char>>) -> Seq<char> {
    match t {
        Some(s) => upper_seq(s),
        None => "EPSG:4326"@,
    }
}

/// A corner text: two whitespace-separated decimals and nothing more.
pub open spec fn spec_parse_corner(t: Seq<char>) -> Option<(int, int)> {
    let k = first_wsc(t);
    if k >= t.len() {
        None
    } else {
        let a = t.subrange(0, k);
        let rest = t.subrange(k, t.len() as int);
        let j = first_nonws(rest);
        if j >= rest.len() {
            None
        } else {
            let b = rest.subrange(j, rest.len() as int);
            if (forall|i: int| 0 <= i < b.len() ==> !is_ws(#[trigger] b[i])) {
                match (dec_micro(a), dec_micro(b)) {
                    (Some(x), Some(y)) => Some((x, y)),
                    _ => None,
                }
            } else {
                None
            }
        }
    }
}

/// Rule for `lowerCorner` / `upperCorner`: a malformed or missing pair falls
/// back to the whole-map default; parsed axes are clamped independently.
pub open spec fn corner_value(t: Option<Seq<char>>, dx: i64, dy: i64) -> (i64, i64) {
    match t {
        None => (dx, dy),
        Some(s) => match spec_parse_corner(s) {
            Some((x, y)) => (
                clamp_i64(clip_i64(x), LON_MICRO_MIN, LON_MICRO_MAX),
                clamp_i64(clip_i64(y), LAT_MICRO_MIN, LAT_MICRO_MAX),
            ),
            None => (dx, dy),
        },
    }
}

/// The parsed magnitudes stay well inside `i64`, so clipping is a spec-level
/// formality to type the clamp.
pub open spec fn clip_i64(v: int) -> i64 {
    if v < i64::MIN {
        i64::MIN
    } else if v > i64::MAX {
        i64::MAX
    } else {
        v as i64
    }
}

pub open spec fn corner_warn(t: Option<Seq<char>>) -> bool {
    t matches Some(s) && spec_parse_corner(s) is None
}

/// Whole days in micro units turned into seconds, truncating; negative
/// counts floor at zero and absurdly large ones saturate.
pub open spec fn micro_days_to_secs(v: int) -> u64 {
    if v <= 0 {
        0
    } else if v * 86400 / 1_000_000 > u64::MAX {
        u64::MAX
    } else {
        (v * 86400 / 1_000_000) as u64
    }
}

/// Rule for `expireDays`: a decimal count of days, times 86400, truncated.
pub open spec fn expire_value(t: Option<Seq<char>>) -> u64 {
    match t {
        None => 0,
        Some(s) => match dec_micro(s) {
            Some(v) => micro_days_to_secs(v),
            None => 0,
        },
    }
}

pub open spec fn expire_warn(t: Option<Seq<char>>) -> bool {
    t matches Some(s) && dec_micro(s) is None
}

/// The first fatal rule a document breaks, in rule order: id, name, zoom
/// ordering, tile type, url placeholders. `None` means the read succeeds.
pub open spec fn fatal_field(texts: FieldTexts, id: Seq<char>) -> Option<Field> {
    if id.len() == 0 {
        Some(Field::Id)
    } else if !name_ok(texts.name) {
        Some(Field::Name)
    } else if zoom_value(texts.min_zoom, 0) > zoom_value(texts.max_zoom, ZOOM_MAX) {
        Some(Field::Zoom)
    } else if !tile_ok(texts.tile_type) {
        Some(Field::TileType)
    } else if !url_ok(texts.url) {
        Some(Field::Url)
    } else {
        None
    }
}

/// The recoverable-default events of a read, in rule order.
pub open spec fn read_warnings(texts: FieldTexts) -> Seq<Warning> {
    (if zoom_warn(texts.min_zoom) {
        seq![Warning::MinZoom]
    } else {
        Seq::empty()
    }) + (if zoom_warn(texts.max_zoom) {
        seq![Warning::MaxZoom]
    } else {
        Seq::empty()
    }) + (if invert_warn(texts.invert_y) {
        seq![Warning::InvertY]
    } else {
        Seq::empty()
    }) + (if corner_warn(texts.lower_corner) {
        seq![Warning::LowerCorner]
    } else {
        Seq::empty()
    }) + (if corner_warn(texts.upper_corner) {
        seq![Warning::UpperCorner]
    } else {
        Seq::empty()
    }) + (if expire_warn(texts.expire_days) {
        seq![Warning::ExpireDays]
    } else {
        Seq::empty()
    })
}

/// The descriptor a successful read leaves behind: every codec field from
/// the document, opacity and enabled flag untouched.
pub open spec fn read_model(old: DescModel, texts: FieldTexts, id: Seq<char>) -> DescModel {
    DescModel {
        enabled: old.enabled,
        alpha: old.alpha,
        map_id: id,
        title: opt_text(texts.name),
        min_zoom: zoom_value(texts.min_zoom, 0),
        max_zoom: zoom_value(texts.max_zoom, ZOOM_MAX),
        tile_format: lower_seq(opt_text(texts.tile_type)),
        url_template: opt_text(texts.url),
        server_parts: parts_value(texts.server_parts),
        invert_y: invert_value(texts.invert_y),
        coord_sys: coord_sys_value(texts.coord_sys),
        lower_x: corner_value(texts.lower_corner, LON_MICRO_MIN, LAT_MICRO_MIN).0,
        lower_y: corner_value(texts.lower_corner, LON_MICRO_MIN, LAT_MICRO_MIN).1,
        upper_x: corner_value(texts.upper_corner, LON_MICRO_MAX, LAT_MICRO_MAX).0,
        upper_y: corner_value(texts.upper_corner, LON_MICRO_MAX, LAT_MICRO_MAX).1,
        expire_sec: expire_value(texts.expire_days),
    }
}

// ---------------------------------------------------------------------------
// Exec collector
// ---------------------------------------------------------------------------

/// Exec shadow of `FieldTexts`.
pub struct Captured {
    pub name: Option<String>,
    pub min_zoom: Option<String>,
    pub max_zoom: Option<String>,
    pub tile_type: Option<String>,
    pub url: Option<String>,
    pub server_parts: Option<String>,
    pub invert_y: Option<String>,
    pub coord_sys: Option<String>,
    pub lower_corner: Option<String>,
    pub upper_corner: Option<String>,
    pub expire_days: Option<String>,
}

pub open spec fn opt_view(o: Option<String>) -> Option<Seq<char>> {
    match o {
        Some(s) => Some(s@),
        None => None,
    }
}

impl View for Captured {
    type V = FieldTexts;

    open spec fn view(&self) -> FieldTexts {
        FieldTexts {
            name: opt_view(self.name),
            min_zoom: opt_view(self.min_zoom),
            max_zoom: opt_view(self.max_zoom),
            tile_type: opt_view(self.tile_type),
            url: opt_view(self.url),
            server_parts: opt_view(self.server_parts),
            invert_y: opt_view(self.invert_y),
            coord_sys: opt_view(self.coord_sys),
            lower_corner: opt_view(self.lower_corner),
            upper_corner: opt_view(self.upper_corner),
            expire_days: opt_view(self.expire_days),
        }
    }
}

/// Runs the collector over a whole event sequence.
pub fn collect_texts(events: &Vec<XmlEvent>) -> (r: Captured)
    ensures
        r@ == capture(events.deep_view()).texts,
{
    let ghost evs = events.deep_view();
    let mut cap = Captured {
        name: None,
        min_zoom: None,
        max_zoom: None,
        tile_type: None,
        url: None,
        server_parts: None,
        invert_y: None,
        coord_sys: None,
        lower_corner: None,
        upper_corner: None,
        expire_days: None,
    };
    let mut active: Option<Tag> = None;
    proof {
        assert(evs.take(0) =~= Seq::<EvSpec>::empty());
        assert(capture(evs.take(0)) == initial_capture());
        assert(cap@ =~= empty_texts());
    }
    let n = events.len();
    let mut i: usize = 0;
    while i < n
        invariant
            0 <= i <= n,
            n == events.len(),
            evs == events.deep_view(),
            evs.len() == n,
            capture(evs.take(i as int)) == (CaptureState { active, texts: cap@ }),
        decreases n - i,
    {
        let ghost pre = CaptureState { active, texts: cap@ };
        let ev = &events[i];
        proof {
            assert(evs[i as int] == events@[i as int].deep_view());
            assert(evs.take(i + 1).drop_last() =~= evs.take(i as int));
            assert(evs.take(i + 1).last() == evs[i as int]);
            assert(capture(evs.take(i + 1)) == capture_step(pre, evs[i as int]));
        }
        match ev {
            XmlEvent::Start(ot) => {
                active = match ot {
                    Some(t) => {
                        if is_field_tag(*t) {
                            Some(*t)
                        } else {
                            None
                        }
                    },
                    None => None,
                };
            },
            XmlEvent::Text(t) => {
                if let Some(tag) = active {
                    let tt = trim_str(t.as_str());
                    if tt.as_str().unicode_len() > 0 {
                        store_field(&mut cap, tag, tt);
                    }
                    active = None;
                }
            },
            XmlEvent::End(_) => {
                active = None;
            },
        }
        i = i + 1;
        proof {
            assert((CaptureState { active, texts: cap@ }) == capture_step(pre, evs[i - 1]));
        }
    }
    proof {
        assert(evs.take(n as int) =~= evs);
    }
    cap
}

fn is_field_tag(t: Tag) -> (r: bool)
    ensures
        r == is_read_field(t),
{
    match t {
        Tag::Root => false,
        Tag::TileUpdate => false,
        Tag::BackgroundColor => false,
        _ => true,
    }
}

/// Splits a corner text into its two decimals, as `spec_parse_corner`
/// describes; any other shape gives `None`.
pub fn parse_corner_pair(s: &str) -> (r: Option<(i64, i64)>)
    ensures
        r is Some <==> spec_parse_corner(s@) is Some,
        r matches Some(p) ==> spec_parse_corner(s@) == Some((p.0 as int, p.1 as int)),
{
    let n: usize = s.unicode_len();
    proof {
        crate::text::lemma_first_wsc(s@);
    }
    let mut k: usize = 0;
    while k < n && !crate::text::is_ws_exec(s.get_char(k))
        invariant
            0 <= k <= n,
            n == s@.len(),
            forall|j: int| 0 <= j < k ==> !is_ws(#[trigger] s@[j]),
        decreases n - k,
    {
        k = k + 1;
    }
    if k == n {
        proof {
            crate::text::lemma_first_wsc(s@);
            if first_wsc(s@) < s@.len() {
                assert(!is_ws(s@[first_wsc(s@)]));
            }
        }
        return None;
    }
    proof {
        crate::text::lemma_first_wsc_at(s@, k as int);
    }
    let ghost rest = s@.subrange(k as int, n as int);
    let mut j: usize = k;
    while j < n && crate::text::is_ws_exec(s.get_char(j))
        invariant
            k <= j <= n,
            n == s@.len(),
            rest == s@.subrange(k as int, n as int),
            forall|t: int| 0 <= t < j - k ==> is_ws(#[trigger] rest[t]),
        decreases n - j,
    {
        proof {
            assert(rest[j - k] == s@[j as int]);
        }
        j = j + 1;
    }
    proof {
        if j < n {
            assert(rest[j - k] == s@[j as int]);
        }
        crate::text::lemma_first_nonws_at(rest, j - k);
    }
    if j == n {
        return None;
    }
    let ghost b = rest.subrange(j - k, rest.len() as int);
    proof {
        assert(b =~= s@.subrange(j as int, n as int));
    }
    let mut t: usize = j;
    while t < n && !crate::text::is_ws_exec(s.get_char(t))
        invariant
            j <= t <= n,
            n == s@.len(),
            b == s@.subrange(j as int, n as int),
            forall|u: int| 0 <= u < t - j ==> !is_ws(#[trigger] b[u]),
        decreases n - t,
    {
        proof {
            assert(b[t - j] == s@[t as int]);
        }
        t = t + 1;
    }
    if t < n {
        proof {
            assert(b[t - j] == s@[t as int]);
        }
        return None;
    }
    proof {
        assert(s@.subrange(0, k as int) == s@.subrange(0, first_wsc(s@)));
    }
    let px = match parse_micro_range(s, 0, k) {
        Some(v) => v,
        None => {
            return None;
        },
    };
    let py = match parse_micro_range(s, j, n) {
        Some(v) => v,
        None => {
            return None;
        },
    };
    Some((px, py))
}

/// Populates the descriptor from a descriptor document's events, applying
/// the read rules in order; on a fatal rule the descriptor is untouched and
/// the error cites the field. On success the recoverable-default warnings
/// are returned in rule order.
fn rule_zoom(t: &Option<String>, default: u8) -> (r: (u8, bool))
    requires
        default <= ZOOM_MAX,
    ensures
        r.0 == zoom_value(opt_view(*t), default),
        r.1 == zoom_warn(opt_view(*t)),
        r.0 <= ZOOM_MAX,
{
    match t {
        None => (default, false),
        Some(s) => {
            let sl = s.as_str();
            let ln = sl.unicode_len();
            proof {
                assert(sl@.subrange(0, ln as int) =~= sl@);
            }
            match parse_int_range(sl, 0, ln) {
                Some(v) => {
                    let c: u8 = if v < 0 {
                        0
                    } else if v > ZOOM_MAX as i64 {
                        ZOOM_MAX
                    } else {
                        v as u8
                    };
                    (c, false)
                },
                None => (default, true),
            }
        },
    }
}

fn rule_invert(t: &Option<String>) -> (r: (bool, bool))
    ensures
        r.0 == invert_value(opt_view(*t)),
        r.1 == invert_warn(opt_view(*t)),
{
    match t {
        None => (false, false),
        Some(s) => {
            if *s == String::from_str("true") {
                (true, false)
            } else if *s == String::from_str("false") {
                (false, false)
            } else {
                (false, true)
            }
        },
    }
}

fn clamp_axis(v: i64, lo: i64, hi: i64) -> (r: i64)
    requires
        lo <= hi,
    ensures
        r == clamp_i64(v, lo, hi),
{
    if v < lo {
        lo
    } else if v > hi {
        hi
    } else {
        v
    }
}

fn rule_corner(t: &Option<String>, dx: i64, dy: i64) -> (r: ((i64, i64), bool))
    requires
        LON_MICRO_MIN <= dx <= LON_MICRO_MAX,
        LAT_MICRO_MIN <= dy <= LAT_MICRO_MAX,
    ensures
        r.0 == corner_value(opt_view(*t), dx, dy),
        r.1 == corner_warn(opt_view(*t)),
{
    match t {
        None => ((dx, dy), false),
        Some(s) => match parse_corner_pair(s.as_str()) {
            Some(p) => {
                let x = clamp_axis(p.0, LON_MICRO_MIN, LON_MICRO_MAX);
                let y = clamp_axis(p.1, LAT_MICRO_MIN, LAT_MICRO_MAX);
                ((x, y), false)
            },
            None => ((dx, dy), true),
        },
    }
}

fn rule_expire(t: &Option<String>) -> (r: (u64, bool))
    ensures
        r.0 == expire_value(opt_view(*t)),
        r.1 == expire_warn(opt_view(*t)),
{
    match t {
        None => (0, false),
        Some(s) => {
            let sl = s.as_str();
            let ln = sl.unicode_len();
            proof {
                assert(sl@.subrange(0, ln as int) =~= sl@);
            }
            match parse_micro_range(sl, 0, ln) {
                Some(v) => (days_micro_to_secs(v), false),
                None => (0, true),
            }
        },
    }
}

fn rule_coord_sys(t: &Option<String>) -> (r: String)
    ensures
        r@ == coord_sys_value(opt_view(*t)),
{
    match t {
        Some(s) => crate::text::upper_str(s.as_str()),
        None => String::from_str("EPSG:4326"),
    }
}

fn rule_parts(t: &Option<String>) -> (r: Option<Vec<String>>)
    ensures
        match r {
            Some(p) => parts_value(opt_view(*t)) == Some(p.deep_view()),
            None => parts_value(opt_view(*t)) is None,
        },
{
    match t {
        Some(s) => Some(crate::text::split_spaces(s.as_str())),
        None => None,
    }
}

fn rule_name(t: &Option<String>) -> (r: Option<String>)
    ensures
        r is Some <==> name_ok(opt_view(*t)),
        r matches Some(v) ==> v@ == opt_text(opt_view(*t)),
{
    match t {
        Some(s) => {
            if s.as_str().unicode_len() == 0 {
                None
            } else {
                Some(s.clone())
            }
        },
        None => None,
    }
}

fn rule_tile(t: &Option<String>) -> (r: Option<String>)
    ensures
        r is Some <==> tile_ok(opt_view(*t)),
        r matches Some(v) ==> v@ == lower_seq(opt_text(opt_view(*t))),
{
    match t {
        Some(s) => {
            let l = crate::text::lower_str(s.as_str());
            if l == String::from_str("jpg") || l == String::from_str("png") {
                Some(l)
            } else {
                None
            }
        },
        None => None,
    }
}

fn rule_url(t: &Option<String>) -> (r: Option<String>)
    ensures
        r is Some <==> url_ok(opt_view(*t)),
        r matches Some(v) ==> v@ == opt_text(opt_view(*t)),
{
    match t {
        Some(u) => {
            if crate::text::contains_sub(u.as_str(), "{$x}") && crate::text::contains_sub(
                u.as_str(),
                "{$y}",
            ) && crate::text::contains_sub(u.as_str(), "{$z}") {
                Some(u.clone())
            } else {
                None
            }
        },
        None => None,
    }
}

/// Populates the descriptor from a descriptor document's events, applying
/// the read rules in order; on a fatal rule the descriptor is untouched and
/// the error cites the field. On success the recoverable-default warnings
/// are returned in rule order.
#[verifier::rlimit(100)]
pub fn read_from_events(d: &mut MapDescriptor, events: &Vec<XmlEvent>, id: &str) -> (r: Result<
    Vec<Warning>,
    ValidationError,
>)
    ensures
        ({
            let texts = capture(events.deep_view()).texts;
            match r {
                Ok(w) => fatal_field(texts, id@) is None && final(d)@ == read_model(
                    old(d)@,
                    texts,
                    id@,
                ) && w@ == read_warnings(texts),
                Err(e) => fatal_field(texts, id@) == Some(e.field) && e.map_id@ == id@ && final(d)@
                    == old(d)@,
            }
        }),
{
    let ghost texts = capture(events.deep_view()).texts;
    let cap = collect_texts(events);
    // rule 1: resolve the id
    if id.unicode_len() == 0 {
        return Err(ValidationError { field: Field::Id, map_id: String::from_str(id) });
    }
    // rule 2: name is required and non-empty
    let title: String = match rule_name(&cap.name) {
        Some(v) => v,
        None => {
            return Err(ValidationError { field: Field::Name, map_id: String::from_str(id) });
        },
    };
    // rule 3: zoom bounds default, clamp, and must stay ordered
    let (minz, warn_min) = rule_zoom(&cap.min_zoom, 0);
    let (maxz, warn_max) = rule_zoom(&cap.max_zoom, ZOOM_MAX);
    if minz > maxz {
        return Err(ValidationError { field: Field::Zoom, map_id: String::from_str(id) });
    }
    // rule 4: tile type, case-folded, jpg or png only
    let tf: String = match rule_tile(&cap.tile_type) {
        Some(v) => v,
        None => {
            return Err(ValidationError { field: Field::TileType, map_id: String::from_str(id) });
        },
    };
    // rule 5: url must carry all three placeholders
    let url: String = match rule_url(&cap.url) {
        Some(v) => v,
        None => {
            return Err(ValidationError { field: Field::Url, map_id: String::from_str(id) });
        },
    };
    proof {
        assert(fatal_field(texts, id@) is None);
    }
    // rules 6 to 10: optional fields, each with its default
    let parts = rule_parts(&cap.server_parts);
    let (inv, warn_inv) = rule_invert(&cap.invert_y);
    let cs = rule_coord_sys(&cap.coord_sys);
    let (lo_pair, warn_lo) = rule_corner(&cap.lower_corner, LON_MICRO_MIN, LAT_MICRO_MIN);
    let (up_pair, warn_up) = rule_corner(&cap.upper_corner, LON_MICRO_MAX, LAT_MICRO_MAX);
    let (secs, warn_exp) = rule_expire(&cap.expire_days);
    // all fatal rules passed: update the descriptor
    d.set_map_id(String::from_str(id));
    d.set_title(title);
    d.set_min_zoom(minz);
    d.set_max_zoom(maxz);
    d.set_tile_format(tf);
    d.set_url_template(url);
    d.set_server_parts(parts);
    d.set_invert_y(inv);
    d.set_coord_sys(cs);
    d.set_lower_corner(lo_pair.0, lo_pair.1);
    d.set_upper_corner(up_pair.0, up_pair.1);
    d.set_expire_sec(secs);
    proof {
        assert(d@ =~= read_model(old(d)@, texts, id@));
    }
    let mut warnings: Vec<Warning> = Vec::new();
    if warn_min {
        warnings.push(Warning::MinZoom);
    }
    if warn_max {
        warnings.push(Warning::MaxZoom);
    }
    if warn_inv {
        warnings.push(Warning::InvertY);
    }
    if warn_lo {
        warnings.push(Warning::LowerCorner);
    }
    if warn_up {
        warnings.push(Warning::UpperCorner);
    }
    if warn_exp {
        warnings.push(Warning::ExpireDays);
    }
    proof {
        assert(warnings@ =~= read_warnings(texts));
    }
    Ok(warnings)
}

// ---------------------------------------------------------------------------
// Save: rendering the fixed template
// ---------------------------------------------------------------------------

/// A full element: start tag, text, end tag.
pub open spec fn triple(t: Tag, txt: Seq<char>) -> Seq<EvSpec> {
    seq![EvSpec::Start(Some(t)), EvSpec::Text(txt), EvSpec::End(Some(t))]
}

/// The `serverParts` text: the parts joined by single spaces, or empty.
pub open spec fn parts_text(p: Option<Seq<Seq<char>>>) -> Seq<char> {
    match p {
        Some(parts) => join_sp(parts),
        None => Seq::empty(),
    }
}

pub open spec fn bool_text(b: bool) -> Seq<char> {
    if b {
        "true"@
    } else {
        "false"@
    }
}

/// A corner's text: the two axes in decimal, separated by one space.
pub open spec fn corner_text(x: i64, y: i64) -> Seq<char> {
    fmt_micro(x as int) + seq![' '] + fmt_micro(y as int)
}

/// The events a save emits: the fixed template in its fixed tag order, each
/// recognized tag's text substituted from the descriptor, the two structure
/// tags left empty.
pub open spec fn spec_save_events(m: DescModel) -> Seq<EvSpec> {
    seq![EvSpec::Start(Some(Tag::Root))] + triple(Tag::Name, m.title) + triple(
        Tag::MinZoom,
        dec_rep(m.min_zoom as nat),
    ) + triple(Tag::MaxZoom, dec_rep(m.max_zoom as nat)) + triple(Tag::TileType, m.tile_format)
        + triple(Tag::TileUpdate, Seq::empty()) + triple(Tag::Url, m.url_template) + triple(
        Tag::ServerParts,
        parts_text(m.server_parts),
    ) + triple(Tag::InvertY, bool_text(m.invert_y)) + triple(Tag::CoordSys, m.coord_sys) + triple(
        Tag::LowerCorner,
        corner_text(m.lower_x, m.lower_y),
    ) + triple(Tag::ExpireDays, dec_rep((m.expire_sec / 86400) as nat)) + triple(
        Tag::BackgroundColor,
        Seq::empty(),
    ) + seq![EvSpec::End(Some(Tag::Root))]
}

fn push_triple(v: &mut Vec<XmlEvent>, t: Tag, txt: String)
    ensures
        final(v).deep_view() == old(v).deep_view() + triple(t, txt@),
{
    v.push(XmlEvent::Start(Some(t)));
    v.push(XmlEvent::Text(txt));
    v.push(XmlEvent::End(Some(t)));
    proof {
        assert(v.deep_view() =~= old(v).deep_view() + triple(t, txt@));
    }
}

/// Renders the descriptor into the template's event sequence, as
/// `spec_save_events` describes.
#[verifier::rlimit(100)]
pub fn save_events(d: &MapDescriptor) -> (r: Vec<XmlEvent>)
    requires
        wf(d@),
    ensures
        r.deep_view() == spec_save_events(d@),
{
    let mut v: Vec<XmlEvent> = Vec::new();
    v.push(XmlEvent::Start(Some(Tag::Root)));
    proof {
        assert(v.deep_view() =~= seq![EvSpec::Start(Some(Tag::Root))]);
    }
    push_triple(&mut v, Tag::Name, d.title().clone());
    push_triple(&mut v, Tag::MinZoom, format_u64(d.min_zoom() as u64));
    push_triple(&mut v, Tag::MaxZoom, format_u64(d.max_zoom() as u64));
    push_triple(&mut v, Tag::TileType, d.tile_format().clone());
    push_triple(&mut v, Tag::TileUpdate, String::new());
    push_triple(&mut v, Tag::Url, d.url_template().clone());
    let parts_str: String = match d.server_parts() {
        Some(p) => crate::text::join_spaces(p),
        None => String::new(),
    };
    push_triple(&mut v, Tag::ServerParts, parts_str);
    let inv_str: String = if d.invert_y() {
        String::from_str("true")
    } else {
        String::from_str("false")
    };
    push_triple(&mut v, Tag::InvertY, inv_str);
    push_triple(&mut v, Tag::CoordSys, d.coord_sys().clone());
    let (lx, ly) = d.lower_corner();
    let mut corner: String = format_micro(lx);
    crate::text::push_char(&mut corner, ' ');
    let fy = format_micro(ly);
    corner.append(fy.as_str());
    proof {
        assert(corner@ =~= corner_text(d@.lower_x, d@.lower_y));
    }
    push_triple(&mut v, Tag::LowerCorner, corner);
    push_triple(&mut v, Tag::ExpireDays, format_u64(d.expire_sec() / 86400));
    push_triple(&mut v, Tag::BackgroundColor, String::new());
    v.push(XmlEvent::End(Some(Tag::Root)));
    proof {
        assert(v.deep_view() =~= spec_save_events(d@));
    }
    v
}

/// A successful read always leaves the descriptor well-formed: the zoom
/// rules only pass ordered in-range bounds, and the corner rules clamp
/// every axis. A descriptor loaded from a document can therefore always be
/// saved again.
pub proof fn lemma_read_model_wf(old: DescModel, texts: FieldTexts, id: Seq<char>)
    requires
        fatal_field(texts, id) is None,
    ensures
        wf(read_model(old, texts, id)),
{
}

// ---------------------------------------------------------------------------
// The round trip: reading a saved descriptor gives the descriptor back
// ---------------------------------------------------------------------------

pub open spec fn opt_trim(s: Seq<char>) -> Option<Seq<char>> {
    if spec_trim(s).len() > 0 {
        Some(spec_trim(s))
    } else {
        None
    }
}

/// The texts the collector gathers from a saved descriptor's events.
pub open spec fn saved_texts(m: DescModel) -> FieldTexts {
    FieldTexts {
        name: opt_trim(m.title),
        min_zoom: opt_trim(dec_rep(m.min_zoom as nat)),
        max_zoom: opt_trim(dec_rep(m.max_zoom as nat)),
        tile_type: opt_trim(m.tile_format),
        url: opt_trim(m.url_template),
        server_parts: opt_trim(parts_text(m.server_parts)),
        invert_y: opt_trim(bool_text(m.invert_y)),
        coord_sys: opt_trim(m.coord_sys),
        lower_corner: opt_trim(corner_text(m.lower_x, m.lower_y)),
        upper_corner: None,
        expire_days: opt_trim(dec_rep((m.expire_sec / 86400) as nat)),
    }
}

proof fn lemma_capture_single(st: CaptureState, ev: EvSpec)
    ensures
        capture_from(st, seq![ev]) == capture_step(st, ev),
{
    let s = seq![ev];
    assert(s.drop_last() =~= Seq::<EvSpec>::empty());
    assert(capture_from(st, Seq::<EvSpec>::empty()) == st);
    assert(capture_from(st, s) == capture_step(capture_from(st, s.drop_last()), s.last()));
    assert(s.last() == ev);
}

proof fn lemma_capture_triple(st: CaptureState, t: Tag, txt: Seq<char>)
    ensures
        capture_from(st, triple(t, txt)) == (CaptureState {
            active: None,
            texts: if is_read_field(t) && spec_trim(txt).len() > 0 {
                set_field(st.texts, t, spec_trim(txt))
            } else {
                st.texts
            },
        }),
{
    let s3 = triple(t, txt);
    let s2 = s3.drop_last();
    let s1 = s2.drop_last();
    assert(s1.drop_last() =~= Seq::<EvSpec>::empty());
    assert(capture_from(st, Seq::<EvSpec>::empty()) == st);
    assert(s1.last() == EvSpec::Start(Some(t)));
    assert(s2.last() == EvSpec::Text(txt));
    assert(s3.last() == EvSpec::End(Some(t)));
    assert(capture_from(st, s1) == capture_step(capture_from(st, s1.drop_last()), s1.last()));
    assert(capture_from(st, s2) == capture_step(capture_from(st, s1), s2.last()));
    assert(capture_from(st, s3) == capture_step(capture_from(st, s2), s3.last()));
    let st1 = capture_step(st, EvSpec::Start(Some(t)));
    let st2 = capture_step(st1, EvSpec::Text(txt));
    let st3 = capture_step(st2, EvSpec::End(Some(t)));
    assert(capture_from(st, s3) == st3);
}

/// The collector over a saved descriptor's events gathers exactly the
/// substituted texts: each recognized tag's text, trimmed, empty counting
/// as absent, and nothing for the template's structure tags.
#[verifier::rlimit(100)]
pub proof fn lemma_capture_of_save(m: DescModel)
    ensures
        capture(spec_save_events(m)).texts == saved_texts(m),
{
    let p0 = seq![EvSpec::Start(Some(Tag::Root))];
    let t1 = triple(Tag::Name, m.title);
    let t2 = triple(Tag::MinZoom, dec_rep(m.min_zoom as nat));
    let t3 = triple(Tag::MaxZoom, dec_rep(m.max_zoom as nat));
    let t4 = triple(Tag::TileType, m.tile_format);
    let t5 = triple(Tag::TileUpdate, Seq::<char>::empty());
    let t6 = triple(Tag::Url, m.url_template);
    let t7 = triple(Tag::ServerParts, parts_text(m.server_parts));
    let t8 = triple(Tag::InvertY, bool_text(m.invert_y));
    let t9 = triple(Tag::CoordSys, m.coord_sys);
    let t10 = triple(Tag::LowerCorner, corner_text(m.lower_x, m.lower_y));
    let t11 = triple(Tag::ExpireDays, dec_rep((m.expire_sec / 86400) as nat));
    let t12 = triple(Tag::BackgroundColor, Seq::<char>::empty());
    let p13 = seq![EvSpec::End(Some(Tag::Root))];
    let c1 = p0 + t1;
    let c2 = c1 + t2;
    let c3 = c2 + t3;
    let c4 = c3 + t4;
    let c5 = c4 + t5;
    let c6 = c5 + t6;
    let c7 = c6 + t7;
    let c8 = c7 + t8;
    let c9 = c8 + t9;
    let c10 = c9 + t10;
    let c11 = c10 + t11;
    let c12 = c11 + t12;
    assert(spec_save_events(m) == c12 + p13);
    let init = initial_capture();
    lemma_capture_single(init, EvSpec::Start(Some(Tag::Root)));
    let st0 = capture_from(init, p0);
    lemma_capture_from_concat(init, p0, t1);
    lemma_capture_triple(st0, Tag::Name, m.title);
    let st1 = capture_from(init, c1);
    lemma_capture_from_concat(init, c1, t2);
    lemma_capture_triple(st1, Tag::MinZoom, dec_rep(m.min_zoom as nat));
    let st2 = capture_from(init, c2);
    lemma_capture_from_concat(init, c2, t3);
    lemma_capture_triple(st2, Tag::MaxZoom, dec_rep(m.max_zoom as nat));
    let st3 = capture_from(init, c3);
    lemma_capture_from_concat(init, c3, t4);
    lemma_capture_triple(st3, Tag::TileType, m.tile_format);
    let st4 = capture_from(init, c4);
    lemma_capture_from_concat(init, c4, t5);
    lemma_capture_triple(st4, Tag::TileUpdate, Seq::<char>::empty());
    let st5 = capture_from(init, c5);
    lemma_capture_from_concat(init, c5, t6);
    lemma_capture_triple(st5, Tag::Url, m.url_template);
    let st6 = capture_from(init, c6);
    lemma_capture_from_concat(init, c6, t7);
    lemma_capture_triple(st6, Tag::ServerParts, parts_text(m.server_parts));
    let st7 = capture_from(init, c7);
    lemma_capture_from_concat(init, c7, t8);
    lemma_capture_triple(st7, Tag::InvertY, bool_text(m.invert_y));
    let st8 = capture_from(init, c8);
    lemma_capture_from_concat(init, c8, t9);
    lemma_capture_triple(st8, Tag::CoordSys, m.coord_sys);
    let st9 = capture_from(init, c9);
    lemma_capture_from_concat(init, c9, t10);
    lemma_capture_triple(st9, Tag::LowerCorner, corner_text(m.lower_x, m.lower_y));
    let st10 = capture_from(init, c10);
    lemma_capture_from_concat(init, c10, t11);
    lemma_capture_triple(st10, Tag::ExpireDays, dec_rep((m.expire_sec / 86400) as nat));
    let st11 = capture_from(init, c11);
    lemma_capture_from_concat(init, c11, t12);
    lemma_capture_triple(st11, Tag::BackgroundColor, Seq::<char>::empty());
    let st12 = capture_from(init, c12);
    lemma_capture_from_concat(init, c12, p13);
    lemma_capture_single(st12, EvSpec::End(Some(Tag::Root)));
    assert(spec_trim(Seq::<char>::empty()).len() == 0);
    assert(capture(spec_save_events(m)).texts =~= saved_texts(m));
}

/// Whether a descriptor's texts survive the trip through the template
/// unchanged: the title, url and coordinate system carry no surrounding
/// whitespace, the tile format is already folded, the server part list is
/// either absent or made of non-empty whitespace-free tokens, and the upper
/// corner sits at its default, since the template carries no tag for it.
pub open spec fn round_trippable(m: DescModel) -> bool {
    &&& wf(m)
    &&& m.map_id.len() > 0
    &&& m.title.len() > 0
    &&& spec_trim(m.title) == m.title
    &&& (m.tile_format == "jpg"@ || m.tile_format == "png"@)
    &&& spec_trim(m.url_template) == m.url_template
    &&& has_sub(m.url_template, "{$x}"@)
    &&& has_sub(m.url_template, "{$y}"@)
    &&& has_sub(m.url_template, "{$z}"@)
    &&& m.coord_sys.len() > 0
    &&& upper_seq(m.coord_sys) == m.coord_sys
    &&& spec_trim(m.coord_sys) == m.coord_sys
    &&& match m.server_parts {
        None => true,
        Some(parts) => parts.len() >= 1 && forall|i: int|
            0 <= i < parts.len() ==> (#[trigger] parts[i]).len() > 0 && forall|j: int|
                0 <= j < parts[i].len() ==> !is_ws(#[trigger] parts[i][j]),
    }
    &&& m.upper_x == LON_MICRO_MAX
    &&& m.upper_y == LAT_MICRO_MAX
    &&& m.expire_sec < 86_400_000_000_000_000
}

/// The round trip: reading back a saved descriptor reproduces every field,
/// with the expiry kept to whole-day granularity, the opacity and enabled
/// flag untouched by the codec, and no fatal error and no warnings on the
/// way. `old` is the state of the descriptor the read populates.
#[verifier::rlimit(100)]
pub proof fn lemma_save_read_round_trip(m: DescModel, old: DescModel)
    requires
        round_trippable(m),
    ensures
        fatal_field(capture(spec_save_events(m)).texts, m.map_id) is None,
        read_warnings(capture(spec_save_events(m)).texts) == Seq::<Warning>::empty(),
        read_model(old, capture(spec_save_events(m)).texts, m.map_id) == (DescModel {
            enabled: old.enabled,
            alpha: old.alpha,
            expire_sec: mul64(86400, (m.expire_sec / 86400) as u64),
            ..m
        }),
{
    lemma_capture_of_save(m);
    let texts = saved_texts(m);
    assert(pow10(12nat) == 1_000_000_000_000) by {
        reveal_with_fuel(crate::num::pow10, 13);
    }
    // name
    assert(texts.name == Some(m.title));
    // zoom texts are digit runs that parse back to the stored bounds
    lemma_zoom_text(m.min_zoom);
    lemma_zoom_text(m.max_zoom);
    assert(texts.min_zoom == Some(dec_rep(m.min_zoom as nat)));
    assert(zoom_value(texts.min_zoom, 0) == m.min_zoom);
    assert(zoom_value(texts.max_zoom, ZOOM_MAX) == m.max_zoom);
    assert(!zoom_warn(texts.min_zoom));
    assert(!zoom_warn(texts.max_zoom));
    // tile format is already lowercase
    lemma_lower_fixed();
    assert(spec_trim(m.tile_format) == m.tile_format) by {
        reveal_strlit("jpg");
        reveal_strlit("png");
        crate::text::lemma_trim_id(m.tile_format);
    }
    assert(m.tile_format.len() > 0) by {
        reveal_strlit("jpg");
        reveal_strlit("png");
    }
    assert(texts.tile_type == Some(m.tile_format));
    assert(lower_seq(opt_text(texts.tile_type)) == m.tile_format);
    assert(tile_ok(texts.tile_type));
    // url
    assert(m.url_template.len() >= 4) by {
        reveal_strlit("{$x}");
        let i = choose|i: int|
            0 <= i && i + "{$x}"@.len() <= m.url_template.len() && (#[trigger] m.url_template.subrange(
                i,
                i + "{$x}"@.len(),
            )) == "{$x}"@;
        assert(0 <= i && i + "{$x}"@.len() <= m.url_template.len());
    }
    assert(texts.url == Some(m.url_template));
    assert(url_ok(texts.url));
    // server parts
    match m.server_parts {
        None => {
            assert(parts_text(m.server_parts) == Seq::<char>::empty());
            assert(texts.server_parts is None);
            assert(parts_value(texts.server_parts) is None);
        },
        Some(parts) => {
            let joined = join_sp(parts);
            crate::text::lemma_join_ends(parts);
            assert(!is_ws(joined[0]));
            assert(!is_ws(joined.last()));
            crate::text::lemma_trim_id(joined);
            assert(texts.server_parts == Some(joined));
            assert forall|i: int| 0 <= i < parts.len() implies !(#[trigger] parts[i]).contains(
                ' ',
            ) by {
                if parts[i].contains(' ') {
                    let j = choose|j: int| 0 <= j < parts[i].len() && parts[i][j] == ' ';
                    assert(is_ws(parts[i][j]));
                }
            }
            crate::text::lemma_split_join(parts);
            assert(parts_value(texts.server_parts) == Some(parts));
        },
    }
    // invert flag
    assert(spec_trim(bool_text(m.invert_y)) == bool_text(m.invert_y)) by {
        reveal_strlit("true");
        reveal_strlit("false");
        crate::text::lemma_trim_id(bool_text(m.invert_y));
    }
    assert(texts.invert_y == Some(bool_text(m.invert_y))) by {
        reveal_strlit("true");
        reveal_strlit("false");
    }
    assert(invert_value(texts.invert_y) == m.invert_y) by {
        reveal_strlit("true");
        reveal_strlit("false");
        assert("true"@.len() == 4);
        assert("false"@.len() == 5);
    }
    assert(!invert_warn(texts.invert_y)) by {
        reveal_strlit("true");
        reveal_strlit("false");
    }
    // coordinate system
    assert(texts.coord_sys == Some(m.coord_sys));
    assert(coord_sys_value(texts.coord_sys) == m.coord_sys);
    // lower corner
    lemma_corner_round_trip(m.lower_x, m.lower_y);
    assert(texts.lower_corner == Some(corner_text(m.lower_x, m.lower_y)));
    assert(corner_value(texts.lower_corner, LON_MICRO_MIN, LAT_MICRO_MIN) == (
        m.lower_x,
        m.lower_y,
    ));
    assert(!corner_warn(texts.lower_corner));
    // upper corner: the template has no tag for it, so the default applies
    assert(texts.upper_corner is None);
    assert(corner_value(texts.upper_corner, LON_MICRO_MAX, LAT_MICRO_MAX) == (
        m.upper_x,
        m.upper_y,
    ));
    // expiry
    lemma_expire_round_trip(m.expire_sec);
    assert(expire_value(texts.expire_days) == mul64(86400, (m.expire_sec / 86400) as u64));
    assert(!expire_warn(texts.expire_days));
    // no fatal rule fires, no warning is recorded
    assert(fatal_field(texts, m.map_id) is None);
    assert(read_warnings(texts) =~= Seq::<Warning>::empty());
    assert(read_model(old, texts, m.map_id) =~= (DescModel {
        enabled: old.enabled,
        alpha: old.alpha,
        expire_sec: mul64(86400, (m.expire_sec / 86400) as u64),
        ..m
    }));
}

/// Word-sized product, used to state the day-granular expiry round trip.
pub open spec fn mul64(a: u64, b: u64) -> u64
    recommends
        a * b <= u64::MAX,
{
    (a * b) as u64
}

proof fn lemma_zoom_text(z: u8)
    requires
        z <= ZOOM_MAX,
    ensures
        spec_trim(dec_rep(z as nat)) == dec_rep(z as nat),
        spec_parse_int(dec_rep(z as nat)) == Some(z as int),
        zoom_value(Some(dec_rep(z as nat)), 0) == z,
        zoom_value(Some(dec_rep(z as nat)), ZOOM_MAX) == z,
        !zoom_warn(Some(dec_rep(z as nat))),
{
    crate::num::lemma_dec_rep(z as nat);
    crate::num::lemma_digits_trim(dec_rep(z as nat));
    assert(pow10(2nat) == 100) by {
        reveal_with_fuel(crate::num::pow10, 3);
    }
    crate::num::lemma_dec_rep_len(z as nat, 2);
    let s = dec_rep(z as nat);
    assert(crate::num::is_digit(s[0]));
    assert(s[0] != '-');
    assert(spec_parse_digits(s, 18) == Some(z as nat));
    assert(clamp_zoom_int(z as int) == z);
}

proof fn lemma_lower_fixed()
    ensures
        lower_seq("jpg"@) == "jpg"@,
        lower_seq("png"@) == "png"@,
{
    reveal_strlit("jpg");
    reveal_strlit("png");
    assert(lower_seq("jpg"@) =~= "jpg"@);
    assert(lower_seq("png"@) =~= "png"@);
}

proof fn lemma_corner_round_trip(x: i64, y: i64)
    requires
        LON_MICRO_MIN <= x <= LON_MICRO_MAX,
        LAT_MICRO_MIN <= y <= LAT_MICRO_MAX,
    ensures
        spec_trim(corner_text(x, y)) == corner_text(x, y),
        spec_parse_corner(corner_text(x, y)) == Some((x as int, y as int)),
{
    let fx = fmt_micro(x as int);
    let fy = fmt_micro(y as int);
    let t = corner_text(x, y);
    crate::num::lemma_fmt_micro_chars(x as int);
    crate::num::lemma_fmt_micro_chars(y as int);
    assert(t =~= fx + seq![' '] + fy);
    assert(!is_ws(t[0]));
    assert(t.last() == fy.last());
    assert(!is_ws(t.last()));
    crate::text::lemma_trim_id(t);
    // the single separator space is the first whitespace
    assert forall|j: int| 0 <= j < fx.len() implies !is_ws(#[trigger] t[j]) by {
        assert(t[j] == fx[j]);
    }
    assert(t[fx.len() as int] == ' ');
    crate::text::lemma_first_wsc_at(t, fx.len() as int);
    let k = fx.len() as int;
    assert(t.subrange(0, k) =~= fx);
    let rest = t.subrange(k, t.len() as int);
    assert(rest =~= seq![' '] + fy);
    assert(is_ws(rest[0]));
    assert(!is_ws(rest[1])) by {
        assert(rest[1] == fy[0]);
    }
    crate::text::lemma_first_nonws_at(rest, 1);
    let b = rest.subrange(1, rest.len() as int);
    assert(b =~= fy);
    assert(forall|u: int| 0 <= u < b.len() ==> !is_ws(#[trigger] b[u]));
    crate::num::lemma_micro_round_trip(x as int);
    crate::num::lemma_micro_round_trip(y as int);
    assert(dec_micro(t.subrange(0, k)) == Some(x as int));
    assert(dec_micro(b) == Some(y as int));
}

proof fn lemma_expire_round_trip(e: u64)
    requires
        e < 86_400_000_000_000_000,
    ensures
        ({
            let days = (e / 86400) as nat;
            &&& spec_trim(dec_rep(days)) == dec_rep(days)
            &&& expire_value(Some(dec_rep(days))) == mul64(86400, (e / 86400) as u64)
            &&& !expire_warn(Some(dec_rep(days)))
        }),
{
    let days = (e / 86400) as nat;
    crate::num::lemma_dec_rep(days);
    crate::num::lemma_digits_trim(dec_rep(days));
    assert(pow10(12nat) == 1_000_000_000_000) by {
        reveal_with_fuel(crate::num::pow10, 13);
    }
    assert(days < 1_000_000_000_000) by {
        assert(e == 86400 * (e / 86400) + e % 86400) by {
            vstd::arithmetic::div_mod::lemma_fundamental_div_mod(e as int, 86400);
        }
        assert(e / 86400 >= 1_000_000_000_000 ==> 86400 * (e / 86400) >= 86_400_000_000_000_000)
            by (nonlinear_arith);
        vstd::arithmetic::div_mod::lemma_remainder_lower(e as int, 86400);
    }
    crate::num::lemma_dec_rep_len(days, 12);
    let s = dec_rep(days);
    assert(crate::num::is_digit(s[0]));
    assert(s[0] != '-');
    // the digit run has no dot, so it parses as a whole number of days
    assert(crate::num::first_dot(s) >= s.len()) by {
        crate::num::lemma_first_dot(s);
        if crate::num::first_dot(s) < s.len() {
            assert(crate::num::is_digit(s[crate::num::first_dot(s)]));
        }
    }
    assert(spec_parse_digits(s, 12) == Some(days));
    assert(dec_micro(s) == Some((days * 1_000_000) as int));
    let v: int = (days * 1_000_000) as int;
    if days == 0 {
        assert(micro_days_to_secs(v) == 0);
        assert(mul64(86400, (e / 86400) as u64) == 0);
    } else {
        assert(v > 0);
        assert(v * 86400 / 1_000_000 == days * 86400) by (nonlinear_arith)
            requires
                v == days * 1_000_000,
                days >= 0,
        ;
        assert(days * 86400 < 86_400_000_000_000_000) by (nonlinear_arith)
            requires
                days < 1_000_000_000_000,
                days >= 0,
        ;
        assert(micro_days_to_secs(v) == days * 86400);
        assert(mul64(86400, (e / 86400) as u64) == 86400 * days);
    }
}

/// A positive micro-day count turned into whole seconds.
fn days_micro_to_secs(v: i64) -> (r: u64)
    ensures
        r == micro_days_to_secs(v as int),
{
    if v <= 0 {
        0
    } else {
        let prod: u128 = (v as u128) * 86400;
        let secs: u128 = prod / 1_000_000;
        if secs > u64::MAX as u128 {
            u64::MAX
        } else {
            secs as u64
        }
    }
}

fn store_field(cap: &mut Captured, t: Tag, v: String)
    ensures
        final(cap)@ == set_field(old(cap)@, t, v@),
{
    match t {
        Tag::Name => {
            cap.name = Some(v);
        },
        Tag::MinZoom => {
            cap.min_zoom = Some(v);
        },
        Tag::MaxZoom => {
            cap.max_zoom = Some(v);
        },
        Tag::TileType => {
            cap.tile_type = Some(v);
        },
        Tag::Url => {
            cap.url = Some(v);
        },
        Tag::ServerParts => {
            cap.server_parts = Some(v);
        },
        Tag::InvertY => {
            cap.invert_y = Some(v);
        },
        Tag::CoordSys => {
            cap.coord_sys = Some(v);
        },
        Tag::LowerCorner => {
            cap.lower_corner = Some(v);
        },
        Tag::UpperCorner => {
            cap.upper_corner = Some(v);
        },
        Tag::ExpireDays => {
            cap.expire_days = Some(v);
        },
        _ => {},
    }
    proof {
        assert(cap@ =~= set_field(old(cap)@, t, v@));
    }
}

} // verus!
