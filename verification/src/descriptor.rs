//! The descriptor model: one tile source's parameters, with the clamping
//! rules that every mutation applies before storing its field.
use vstd::prelude::*;

verus! {

/// Largest zoom level of the tile pyramid.
pub const ZOOM_MAX: u8 = 24;

/// Longitude bound, in micro-degrees.
pub const LON_MICRO_MAX: i64 = 180_000_000;

/// Latitude bound, in micro-degrees.
pub const LAT_MICRO_MAX: i64 = 85_000_000;

/// Western longitude bound, in micro-degrees.
pub const LON_MICRO_MIN: i64 = -180_000_000;

/// Southern latitude bound, in micro-degrees.
pub const LAT_MICRO_MIN: i64 = -85_000_000;

/// The mathematical value of a descriptor: what every contract speaks of.
/// Corner coordinates are held in micro-degrees (one millionth of a degree),
/// opacity as an 8-bit value with 255 meaning fully opaque.
pub struct DescModel {
    pub enabled: bool,
    pub alpha: u8,
    pub map_id: Seq<char>,
    pub title: Seq<char>,
    pub min_zoom: u8,
    pub max_zoom: u8,
    pub tile_format: Seq<char>,
    pub url_template: Seq<char>,
    pub server_parts: Option<Seq<Seq<char>>>,
    pub invert_y: bool,
    pub coord_sys: Seq<char>,
    pub lower_x: i64,
    pub lower_y: i64,
    pub upper_x: i64,
    pub upper_y: i64,
    pub expire_sec: u64,
}

/// The ranges that the clamping setters enforce at every write: the zoom pair
/// is ordered and within the pyramid, the corners lie on the map.
pub open spec fn wf(m: DescModel) -> bool {
    &&& m.min_zoom <= m.max_zoom <= ZOOM_MAX
    &&& LON_MICRO_MIN <= m.lower_x <= LON_MICRO_MAX
    &&& LAT_MICRO_MIN <= m.lower_y <= LAT_MICRO_MAX
    &&& LON_MICRO_MIN <= m.upper_x <= LON_MICRO_MAX
    &&& LAT_MICRO_MIN <= m.upper_y <= LAT_MICRO_MAX
}

/// The state of a freshly constructed descriptor.
pub open spec fn default_model() -> DescModel {
    DescModel {
        enabled: false,
        alpha: 255,
        map_id: Seq::empty(),
        title: Seq::empty(),
        min_zoom: 0,
        max_zoom: 0,
        tile_format: Seq::empty(),
        url_template: Seq::empty(),
        server_parts: None,
        invert_y: true,
        coord_sys: Seq::empty(),
        lower_x: LON_MICRO_MIN,
        lower_y: LAT_MICRO_MIN,
        upper_x: LON_MICRO_MAX,
        upper_y: LAT_MICRO_MAX,
        expire_sec: 0,
    }
}

pub open spec fn clamp_zoom_spec(v: u8) -> u8 {
    if v > ZOOM_MAX {
        ZOOM_MAX
    } else {
        v
    }
}

pub open spec fn clamp_i64(v: i64, lo: i64, hi: i64) -> i64 {
    if v < lo {
        lo
    } else if v > hi {
        hi
    } else {
        v
    }
}

/// Writing the lower zoom bound: the value is clamped to the pyramid, and the
/// upper bound is raised when the new lower bound would pass it.
pub open spec fn spec_set_min_zoom(m: DescModel, v: u8) -> DescModel {
    let nv = clamp_zoom_spec(v);
    DescModel {
        min_zoom: nv,
        max_zoom: if nv > m.max_zoom {
            nv
        } else {
            m.max_zoom
        },
        ..m
    }
}

/// Writing the upper zoom bound: the mirror of `spec_set_min_zoom`.
pub open spec fn spec_set_max_zoom(m: DescModel, v: u8) -> DescModel {
    let nv = clamp_zoom_spec(v);
    DescModel {
        max_zoom: nv,
        min_zoom: if nv < m.min_zoom {
            nv
        } else {
            m.min_zoom
        },
        ..m
    }
}

/// The stored opacity for a requested fraction `num / den`: the nearest
/// multiple of `1/255`, ties rounded up.
pub open spec fn spec_quantize_alpha(num: u32, den: u32) -> int
    recommends
        1 <= den,
{
    (510 * num + den) / (2 * den)
}

pub struct MapDescriptor {
    enabled: bool,
    alpha: u8,
    map_id: String,
    title: String,
    min_zoom: u8,
    max_zoom: u8,
    tile_format: String,
    url_template: String,
    server_parts: Option<Vec<String>>,
    invert_y: bool,
    coord_sys: String,
    lower_x: i64,
    lower_y: i64,
    upper_x: i64,
    upper_y: i64,
    expire_sec: u64,
}

impl View for MapDescriptor {
    type V = DescModel;

    closed spec fn view(&self) -> DescModel {
        DescModel {
            enabled: self.enabled,
            alpha: self.alpha,
            map_id: self.map_id@,
            title: self.title@,
            min_zoom: self.min_zoom,
            max_zoom: self.max_zoom,
            tile_format: self.tile_format@,
            url_template: self.url_template@,
            server_parts: match self.server_parts {
                Some(ref v) => Some(v.deep_view()),
                None => None,
            },
            invert_y: self.invert_y,
            coord_sys: self.coord_sys@,
            lower_x: self.lower_x,
            lower_y: self.lower_y,
            upper_x: self.upper_x,
            upper_y: self.upper_y,
            expire_sec: self.expire_sec,
        }
    }
}

impl MapDescriptor {
    pub fn new() -> (r: Self)
        ensures
            r@ == default_model(),
            wf(r@),
    {
        let r = MapDescriptor {
            enabled: false,
            alpha: 255,
            map_id: String::new(),
            title: String::new(),
            min_zoom: 0,
            max_zoom: 0,
            tile_format: String::new(),
            url_template: String::new(),
            server_parts: None,
            invert_y: true,
            coord_sys: String::new(),
            lower_x: LON_MICRO_MIN,
            lower_y: LAT_MICRO_MIN,
            upper_x: LON_MICRO_MAX,
            upper_y: LAT_MICRO_MAX,
            expire_sec: 0,
        };
        proof {
            assert(r@ =~= default_model());
        }
        r
    }

    pub fn enabled(&self) -> (r: bool)
        ensures
            r == self@.enabled,
    {
        self.enabled
    }

    pub fn set_enabled(&mut self, v: bool)
        ensures
            final(self)@ == (DescModel { enabled: v, ..old(self)@ }),
    {
        self.enabled = v;
        proof {
            assert(self@ =~= (DescModel { enabled: v, ..old(self)@ }));
        }
    }

    pub fn map_id(&self) -> (r: &String)
        ensures
            r@ == self@.map_id,
    {
        &self.map_id
    }

    pub fn set_map_id(&mut self, v: String)
        ensures
            final(self)@ == (DescModel { map_id: v@, ..old(self)@ }),
    {
        self.map_id = v;
        proof {
            assert(self@ =~= (DescModel { map_id: self.map_id@, ..old(self)@ }));
        }
    }

    pub fn title(&self) -> (r: &String)
        ensures
            r@ == self@.title,
    {
        &self.title
    }

    pub fn set_title(&mut self, v: String)
        ensures
            final(self)@ == (DescModel { title: v@, ..old(self)@ }),
    {
        self.title = v;
        proof {
            assert(self@ =~= (DescModel { title: self.title@, ..old(self)@ }));
        }
    }

    pub fn min_zoom(&self) -> (r: u8)
        ensures
            r == self@.min_zoom,
    {
        self.min_zoom
    }

    pub fn max_zoom(&self) -> (r: u8)
        ensures
            r == self@.max_zoom,
    {
        self.max_zoom
    }

    /// Clamps to the pyramid and keeps the pair ordered: a lower bound written
    /// above the current upper bound drags the upper bound up with it.
    pub fn set_min_zoom(&mut self, v: u8)
        ensures
            final(self)@ == spec_set_min_zoom(old(self)@, v),
            final(self)@.min_zoom == clamp_zoom_spec(v),
            final(self)@.min_zoom <= final(self)@.max_zoom,
    {
        let nv = if v > ZOOM_MAX {
            ZOOM_MAX
        } else {
            v
        };
        self.min_zoom = nv;
        if nv > self.max_zoom {
            self.max_zoom = nv;
        }
        proof {
            assert(self@ =~= spec_set_min_zoom(old(self)@, v));
        }
    }

    /// The mirror of `set_min_zoom`: an upper bound written below the current
    /// lower bound drags the lower bound down with it.
    pub fn set_max_zoom(&mut self, v: u8)
        ensures
            final(self)@ == spec_set_max_zoom(old(self)@, v),
            final(self)@.max_zoom == clamp_zoom_spec(v),
            final(self)@.min_zoom <= final(self)@.max_zoom,
    {
        let nv = if v > ZOOM_MAX {
            ZOOM_MAX
        } else {
            v
        };
        self.max_zoom = nv;
        if nv < self.min_zoom {
            self.min_zoom = nv;
        }
        proof {
            assert(self@ =~= spec_set_max_zoom(old(self)@, v));
        }
    }

    pub fn tile_format(&self) -> (r: &String)
        ensures
            r@ == self@.tile_format,
    {
        &self.tile_format
    }

    /// No validation here: format strings are checked on the parse path only.
    pub fn set_tile_format(&mut self, v: String)
        ensures
            final(self)@ == (DescModel { tile_format: v@, ..old(self)@ }),
    {
        self.tile_format = v;
        proof {
            assert(self@ =~= (DescModel { tile_format: self.tile_format@, ..old(self)@ }));
        }
    }

    pub fn url_template(&self) -> (r: &String)
        ensures
            r@ == self@.url_template,
    {
        &self.url_template
    }

    /// No validation here: placeholder checks happen on the parse path only.
    pub fn set_url_template(&mut self, v: String)
        ensures
            final(self)@ == (DescModel { url_template: v@, ..old(self)@ }),
    {
        self.url_template = v;
        proof {
            assert(self@ =~= (DescModel { url_template: self.url_template@, ..old(self)@ }));
        }
    }

    pub fn server_parts(&self) -> (r: &Option<Vec<String>>)
        ensures
            self@.server_parts is Some <==> *r is Some,
            r matches Some(v) ==> self@.server_parts == Some(v.deep_view()),
    {
        &self.server_parts
    }

    pub fn set_server_parts(&mut self, v: Option<Vec<String>>)
        ensures
            final(self)@ == (DescModel {
                server_parts: match v {
                    Some(p) => Some(p.deep_view()),
                    None => None,
                },
                ..old(self)@
            }),
    {
        self.server_parts = v;
        proof {
            assert(self@ =~= (DescModel {
                server_parts: match self.server_parts {
                    Some(ref p) => Some(p.deep_view()),
                    None => None,
                },
                ..old(self)@
            }));
        }
    }

    pub fn invert_y(&self) -> (r: bool)
        ensures
            r == self@.invert_y,
    {
        self.invert_y
    }

    pub fn set_invert_y(&mut self, v: bool)
        ensures
            final(self)@ == (DescModel { invert_y: v, ..old(self)@ }),
    {
        self.invert_y = v;
        proof {
            assert(self@ =~= (DescModel { invert_y: v, ..old(self)@ }));
        }
    }

    pub fn coord_sys(&self) -> (r: &String)
        ensures
            r@ == self@.coord_sys,
    {
        &self.coord_sys
    }

    /// No validation here: defaulting and uppercasing happen on the parse path.
    pub fn set_coord_sys(&mut self, v: String)
        ensures
            final(self)@ == (DescModel { coord_sys: v@, ..old(self)@ }),
    {
        self.coord_sys = v;
        proof {
            assert(self@ =~= (DescModel { coord_sys: self.coord_sys@, ..old(self)@ }));
        }
    }

    pub fn lower_corner(&self) -> (r: (i64, i64))
        ensures
            r.0 == self@.lower_x,
            r.1 == self@.lower_y,
    {
        (self.lower_x, self.lower_y)
    }

    pub fn upper_corner(&self) -> (r: (i64, i64))
        ensures
            r.0 == self@.upper_x,
            r.1 == self@.upper_y,
    {
        (self.upper_x, self.upper_y)
    }

    /// Both axes are clamped independently, in micro-degrees: longitude to
    /// [-180, 180] degrees, latitude to [-85, 85] degrees.
    pub fn set_lower_corner(&mut self, x: i64, y: i64)
        ensures
            final(self)@ == (DescModel {
                lower_x: clamp_i64(x, LON_MICRO_MIN, LON_MICRO_MAX),
                lower_y: clamp_i64(y, LAT_MICRO_MIN, LAT_MICRO_MAX),
                ..old(self)@
            }),
    {
        self.lower_x = clamp_coord(x, LON_MICRO_MIN, LON_MICRO_MAX);
        self.lower_y = clamp_coord(y, LAT_MICRO_MIN, LAT_MICRO_MAX);
        proof {
            assert(self@ =~= (DescModel {
                lower_x: clamp_i64(x, LON_MICRO_MIN, LON_MICRO_MAX),
                lower_y: clamp_i64(y, LAT_MICRO_MIN, LAT_MICRO_MAX),
                ..old(self)@
            }));
        }
    }

    /// As `set_lower_corner`; no ordering is enforced between the two corners.
    pub fn set_upper_corner(&mut self, x: i64, y: i64)
        ensures
            final(self)@ == (DescModel {
                upper_x: clamp_i64(x, LON_MICRO_MIN, LON_MICRO_MAX),
                upper_y: clamp_i64(y, LAT_MICRO_MIN, LAT_MICRO_MAX),
                ..old(self)@
            }),
    {
        self.upper_x = clamp_coord(x, LON_MICRO_MIN, LON_MICRO_MAX);
        self.upper_y = clamp_coord(y, LAT_MICRO_MIN, LAT_MICRO_MAX);
        proof {
            assert(self@ =~= (DescModel {
                upper_x: clamp_i64(x, LON_MICRO_MIN, LON_MICRO_MAX),
                upper_y: clamp_i64(y, LAT_MICRO_MIN, LAT_MICRO_MAX),
                ..old(self)@
            }));
        }
    }

    /// The stored opacity, as a numerator over 255.
    pub fn alpha_255(&self) -> (r: u8)
        ensures
            r == self@.alpha,
    {
        self.alpha
    }

    /// Sets the opacity to the fraction `num / den` of full, quantized to the
    /// nearest multiple of 1/255. The stored value differs from the request
    /// by at most half a quantum.
    pub fn set_alpha(&mut self, num: u32, den: u32)
        requires
            1 <= den,
            num <= den,
        ensures
            final(self)@ == (DescModel {
                alpha: spec_quantize_alpha(num, den) as u8,
                ..old(self)@
            }),
            0 <= spec_quantize_alpha(num, den) <= 255,
    {
        proof {
            lemma_alpha_quantization(num, den);
        }
        let num64: u64 = num as u64;
        let den64: u64 = den as u64;
        let q: u64 = (510 * num64 + den64) / (2 * den64);
        assert(q == spec_quantize_alpha(num, den));
        self.alpha = q as u8;
        proof {
            assert(self@ =~= (DescModel {
                alpha: spec_quantize_alpha(num, den) as u8,
                ..old(self)@
            }));
        }
    }

    /// Whether the clamped fields are in range; always true of a descriptor
    /// mutated only through its setters.
    pub fn is_wf(&self) -> (r: bool)
        ensures
            r == wf(self@),
    {
        self.min_zoom <= self.max_zoom && self.max_zoom <= ZOOM_MAX && LON_MICRO_MIN
            <= self.lower_x && self.lower_x <= LON_MICRO_MAX && LAT_MICRO_MIN <= self.lower_y
            && self.lower_y <= LAT_MICRO_MAX && LON_MICRO_MIN <= self.upper_x && self.upper_x
            <= LON_MICRO_MAX && LAT_MICRO_MIN <= self.upper_y && self.upper_y <= LAT_MICRO_MAX
    }

    pub fn expire_sec(&self) -> (r: u64)
        ensures
            r == self@.expire_sec,
    {
        self.expire_sec
    }

    pub fn set_expire_sec(&mut self, v: u64)
        ensures
            final(self)@ == (DescModel { expire_sec: v, ..old(self)@ }),
    {
        self.expire_sec = v;
        proof {
            assert(self@ =~= (DescModel { expire_sec: v, ..old(self)@ }));
        }
    }
}

fn clamp_coord(v: i64, lo: i64, hi: i64) -> (r: i64)
    requires
        lo <= hi,
    ensures
        r == clamp_i64(v, lo, hi),
{
    if v < lo {
        lo
    } else if v > hi {
        hi
    } else {
        v
    }
}

/// Writing the two zoom bounds in order stores exactly that pair: for any
/// starting state and any `a <= b <= 24`, `set_min_zoom(a)` then
/// `set_max_zoom(b)` leaves the bounds at `(a, b)`. Writing one bound past
/// the other always drags the other along, in either order.
pub proof fn lemma_zoom_pair(m: DescModel, a: u8, b: u8)
    requires
        a <= b <= ZOOM_MAX,
    ensures
        spec_set_max_zoom(spec_set_min_zoom(m, a), b).min_zoom == a,
        spec_set_max_zoom(spec_set_min_zoom(m, a), b).max_zoom == b,
        spec_set_min_zoom(m, a).min_zoom > m.max_zoom ==> spec_set_min_zoom(m, a).max_zoom
            == spec_set_min_zoom(m, a).min_zoom,
        spec_set_max_zoom(m, b).max_zoom < m.min_zoom ==> spec_set_max_zoom(m, b).min_zoom
            == spec_set_max_zoom(m, b).max_zoom,
{
}

/// The opacity quantization error is below one step of the 8-bit scale:
/// after `set_alpha(num, den)` the stored fraction `alpha / 255` differs
/// from `num / den` by at most `1 / 255`; cleared of denominators, that is
/// `|alpha * den - 255 * num| <= den`.
pub proof fn lemma_alpha_quantization(num: u32, den: u32)
    requires
        1 <= den,
        num <= den,
    ensures
        0 <= spec_quantize_alpha(num, den) <= 255,
        abs_int(spec_quantize_alpha(num, den) * den - 255 * num) <= den,
{
    let n: int = 510 * num + den;
    let d: int = 2 * den;
    let q: int = n / d;
    let r: int = n % d;
    assert(q == spec_quantize_alpha(num, den));
    vstd::arithmetic::div_mod::lemma_fundamental_div_mod(n, d);
    vstd::arithmetic::div_mod::lemma_remainder_upper(n, d);
    vstd::arithmetic::div_mod::lemma_remainder_lower(n, d);
    assert(n == d * q + r);
    assert(0 <= r < d);
    assert(q >= 0) by (nonlinear_arith)
        requires
            n == d * q + r,
            0 <= r < d,
            n >= 0,
            d > 0,
    ;
    assert(q <= 255) by (nonlinear_arith)
        requires
            n == d * q + r,
            0 <= r,
            d == 2 * den,
            n == 510 * num + den,
            num <= den,
            1 <= den,
    ;
    assert(2 * (q * den - 255 * num) == den - r) by (nonlinear_arith)
        requires
            n == d * q + r,
            d == 2 * den,
            n == 510 * num + den,
    ;
    let x: int = q * den - 255 * num;
    assert(-(den as int) < 2 * x <= den);
    assert(abs_int(x) <= den);
}

/// |x| over the mathematical integers.
pub open spec fn abs_int(x: int) -> int {
    if x < 0 {
        -x
    } else {
        x
    }
}

} // verus!
