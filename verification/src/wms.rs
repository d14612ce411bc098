//! OGC Web Map Service requests.
//!
//! A WMS answers `GetMap` requests for any bounding box. To turn that into
//! something a globe can stream, requests are pinned to the tile quadtree and
//! one square image is asked for per tile. This module builds the `GetMap`
//! URL for one tile from the layer's configuration and the tile's bounding
//! box, already written out in the axis order the protocol version wants.
use vstd::prelude::*;
use vstd::string::StringSliceAdditionalSpecFns;
use vstd::utf8::encode_utf8;

use crate::imagery::{ImagerySettings, percent_encode, percent_encoded};
use crate::text::{
    chars_of, contains, contains_char, decimal, push_char, push_decimal, push_str, same_text,
    string_of,
};

verus! {

/// The asset source scheme WMS tiles are loaded under.
pub const WMS_SOURCE: &'static str = "wms";

/// Which revision of the specification to speak. 1.3.0 renamed `SRS` to `CRS`
/// and made `EPSG:4326` latitude-first, where 1.1.1 had it longitude-first.
#[derive(Debug, Clone, Copy, PartialEq, Eq, Structural)]
pub enum WmsVersion {
    V1_1_1,
    V1_3_0,
}

impl WmsVersion {
    pub open spec fn spec_as_str(self) -> Seq<char> {
        match self {
            WmsVersion::V1_1_1 => "1.1.1"@,
            WmsVersion::V1_3_0 => "1.3.0"@,
        }
    }

    pub open spec fn spec_crs_parameter(self) -> Seq<char> {
        match self {
            WmsVersion::V1_1_1 => "SRS"@,
            WmsVersion::V1_3_0 => "CRS"@,
        }
    }

    pub fn as_str(self) -> (text: &'static str)
        ensures
            text@ == self.spec_as_str(),
    {
        match self {
            WmsVersion::V1_1_1 => "1.1.1",
            WmsVersion::V1_3_0 => "1.3.0",
        }
    }

    /// Writes a bounding box in the axis order its version mandates.
    pub fn format_bbox(self, bounds: &BboxText) -> (text: String)
        ensures
            text@ == bbox_text(self, *bounds),
    {
        let (first, second, third, fourth) = match self {
            WmsVersion::V1_1_1 => (&bounds.lon_min, &bounds.lat_min, &bounds.lon_max, &bounds.lat_max),
            WmsVersion::V1_3_0 => (&bounds.lat_min, &bounds.lon_min, &bounds.lat_max, &bounds.lon_max),
        };
        let mut text = String::new();
        push_str(&mut text, first.as_str());
        push_str(&mut text, ",");
        push_str(&mut text, second.as_str());
        push_str(&mut text, ",");
        push_str(&mut text, third.as_str());
        push_str(&mut text, ",");
        push_str(&mut text, fourth.as_str());
        assert(text@ =~= bbox_text(self, *bounds));
        text
    }

    /// The name of the coordinate-system parameter for this version.
    pub fn crs_parameter(self) -> (name: &'static str)
        ensures
            name@ == self.spec_crs_parameter(),
    {
        match self {
            WmsVersion::V1_1_1 => "SRS",
            WmsVersion::V1_3_0 => "CRS",
        }
    }
}

/// A bounding box's edges, in degrees, each already written out.
pub struct BboxText {
    pub lat_min: String,
    pub lat_max: String,
    pub lon_min: String,
    pub lon_max: String,
}

/// A bounding box in the axis order a version mandates for `EPSG:4326`:
/// 1.3.0 latitude-first, 1.1.1 longitude-first.
pub open spec fn bbox_text(version: WmsVersion, bounds: BboxText) -> Seq<char> {
    match version {
        WmsVersion::V1_1_1 => bounds.lon_min@ + ","@ + bounds.lat_min@ + ","@ + bounds.lon_max@ + ","@
            + bounds.lat_max@,
        WmsVersion::V1_3_0 => bounds.lat_min@ + ","@ + bounds.lon_min@ + ","@ + bounds.lat_max@ + ","@
            + bounds.lon_max@,
    }
}

/// The image encoding to request.
#[derive(Debug, Clone, Copy, PartialEq, Eq, Structural)]
pub enum WmsFormat {
    Jpeg,
    /// What a transparent overlay layer needs.
    Png,
}

impl WmsFormat {
    pub open spec fn spec_mime(self) -> Seq<char> {
        match self {
            WmsFormat::Jpeg => "image/jpeg"@,
            WmsFormat::Png => "image/png"@,
        }
    }

    pub open spec fn spec_extension(self) -> Seq<char> {
        match self {
            WmsFormat::Jpeg => "jpg"@,
            WmsFormat::Png => "png"@,
        }
    }

    pub fn mime(self) -> (mime: &'static str)
        ensures
            mime@ == self.spec_mime(),
    {
        match self {
            WmsFormat::Jpeg => "image/jpeg",
            WmsFormat::Png => "image/png",
        }
    }

    /// The extension the tile path ends in, which is what picks the decoder.
    pub fn extension(self) -> (extension: &'static str)
        ensures
            extension@ == self.spec_extension(),
    {
        match self {
            WmsFormat::Jpeg => "jpg",
            WmsFormat::Png => "png",
        }
    }
}

/// Everything needed to address one WMS layer.
pub struct WmsConfig {
    /// A short name for the layer, shown in the readout.
    pub label: String,
    /// The `GetMap` endpoint, with scheme, and without a query string.
    pub endpoint: String,
    /// The `LAYERS` parameter — comma-separated for several drawn together.
    pub layers: String,
    pub styles: String,
    pub version: WmsVersion,
    pub format: WmsFormat,
    pub transparent: bool,
    /// Edge length in pixels of each requested tile.
    pub tile_size: u32,
    /// How deep the quadtree may go.
    pub max_level: u8,
    /// Any further parameters, such as `TIME` for a dated layer.
    pub extra: Vec<(String, String)>,
}

/// A list of parameters as plain text.
pub open spec fn pairs_view(pairs: Seq<(String, String)>) -> Seq<(Seq<char>, Seq<char>)> {
    pairs.map_values(|p: (String, String)| (p.0@, p.1@))
}

/// A character in upper case, if it is an ASCII letter.
pub open spec fn ascii_upper(c: char) -> char {
    if 'a' <= c && c <= 'z' {
        ((c as u32) - 32) as char
    } else {
        c
    }
}

pub open spec fn ascii_uppercase(s: Seq<char>) -> Seq<char> {
    s.map_values(|c: char| ascii_upper(c))
}

/// The parameters other than those named `name`, in order.
pub open spec fn without(pairs: Seq<(Seq<char>, Seq<char>)>, name: Seq<char>) -> Seq<
    (Seq<char>, Seq<char>),
>
    decreases pairs.len(),
{
    if pairs.len() == 0 {
        Seq::empty()
    } else {
        let rest = without(pairs.drop_last(), name);
        if pairs.last().0 == name {
            rest
        } else {
            rest.push(pairs.last())
        }
    }
}

/// One parameter of a query: its name, `=`, and its value percent-encoded.
pub open spec fn parameter(pair: (Seq<char>, Seq<char>)) -> Seq<char> {
    pair.0 + seq!['='] + percent_encoded(encode_utf8(pair.1))
}

/// Parameters joined by `&`.
pub open spec fn query(pairs: Seq<(Seq<char>, Seq<char>)>) -> Seq<char>
    decreases pairs.len(),
{
    if pairs.len() == 0 {
        Seq::empty()
    } else if pairs.len() == 1 {
        parameter(pairs[0])
    } else {
        query(pairs.drop_last()) + seq!['&'] + parameter(pairs.last())
    }
}

impl WmsConfig {
    pub open spec fn extra_view(&self) -> Seq<(Seq<char>, Seq<char>)> {
        pairs_view(self.extra@)
    }

    /// Every parameter a `GetMap` request for one tile carries, in order:
    /// the fixed ones, then the extra ones.
    pub open spec fn get_map_parameters(&self, bbox: Seq<char>) -> Seq<(Seq<char>, Seq<char>)> {
        seq![
            ("SERVICE"@, "WMS"@),
            ("VERSION"@, self.version.spec_as_str()),
            ("REQUEST"@, "GetMap"@),
            ("LAYERS"@, self.layers@),
            ("STYLES"@, self.styles@),
            (self.version.spec_crs_parameter(), "EPSG:4326"@),
            ("BBOX"@, bbox),
            ("WIDTH"@, decimal(self.tile_size as nat)),
            ("HEIGHT"@, decimal(self.tile_size as nat)),
            ("FORMAT"@, self.format.spec_mime()),
            ("TRANSPARENT"@, if self.transparent {
                "TRUE"@
            } else {
                "FALSE"@
            }),
        ] + self.extra_view()
    }

    /// The endpoint, `?` — or `&` when the endpoint already has a query —
    /// and the parameters.
    pub open spec fn spec_get_map_url(&self, bbox: Seq<char>) -> Seq<char> {
        self.endpoint@ + seq![
            if contains_char(self.endpoint@, '?') {
                '&'
            } else {
                '?'
            },
        ] + query(self.get_map_parameters(bbox))
    }

    /// NASA's Global Imagery Browse Services, which serves Earth-observation
    /// layers over WMS without a key, and to a browser too.
    pub fn gibs(label: &str, layers: &str) -> (config: WmsConfig)
        ensures
            config.label@ == label@,
            config.endpoint@ == "https://gibs.earthdata.nasa.gov/wms/epsg4326/best/wms.cgi"@,
            config.layers@ == layers@,
            config.styles@.len() == 0,
            config.version == WmsVersion::V1_3_0,
            config.format == WmsFormat::Jpeg,
            !config.transparent,
            config.tile_size == 256,
            config.max_level == 8,
            config.extra@.len() == 0,
    {
        let mut label_text = String::new();
        push_str(&mut label_text, label);
        let mut endpoint = String::new();
        push_str(&mut endpoint, "https://gibs.earthdata.nasa.gov/wms/epsg4326/best/wms.cgi");
        let mut layers_text = String::new();
        push_str(&mut layers_text, layers);
        WmsConfig {
            label: label_text,
            endpoint,
            layers: layers_text,
            styles: String::new(),
            version: WmsVersion::V1_3_0,
            format: WmsFormat::Jpeg,
            transparent: false,
            tile_size: 256,
            max_level: 8,
            extra: Vec::new(),
        }
    }

    /// Adds a parameter under its name in upper case, replacing any existing
    /// one of that name.
    pub fn with_parameter(self, name: &str, value: &str) -> (config: WmsConfig)
        ensures
            config.extra_view() == without(self.extra_view(), ascii_uppercase(name@)).push(
                (ascii_uppercase(name@), value@),
            ),
            config.label == self.label,
            config.endpoint == self.endpoint,
            config.layers == self.layers,
            config.styles == self.styles,
            config.version == self.version,
            config.format == self.format,
            config.transparent == self.transparent,
            config.tile_size == self.tile_size,
            config.max_level == self.max_level,
    {
        let name = to_ascii_uppercase(name);
        let mut config = self;
        let ghost before = config.extra@;
        let mut extra: Vec<(String, String)> = Vec::new();
        let mut i: usize = 0;
        while i < config.extra.len()
            invariant
                before == config.extra@,
                i <= before.len(),
                pairs_view(extra@) == without(pairs_view(before.take(i as int)), name@),
            decreases before.len() - i,
        {
            assert(pairs_view(before.take(i + 1)).drop_last() =~= pairs_view(before.take(i as int)));
            let existing = &config.extra[i];
            if !same_text(existing.0.as_str(), name.as_str()) {
                let kept = (existing.0.clone(), existing.1.clone());
                let ghost old_extra = extra@;
                extra.push(kept);
                assert(pairs_view(extra@) =~= pairs_view(old_extra).push((before[i as int].0@, before[i as int].1@)));
            }
            i = i + 1;
        }
        assert(before.take(before.len() as int) =~= before);
        let ghost kept = extra@;
        let mut value_text = String::new();
        push_str(&mut value_text, value);
        extra.push((name, value_text));
        assert(pairs_view(extra@) =~= pairs_view(kept).push((name@, value@)));
        config.extra = extra;
        config
    }

    pub fn with_max_level(self, max_level: u8) -> (config: WmsConfig)
        ensures
            config.max_level == max_level,
            config.label == self.label,
            config.endpoint == self.endpoint,
            config.layers == self.layers,
            config.styles == self.styles,
            config.version == self.version,
            config.format == self.format,
            config.transparent == self.transparent,
            config.tile_size == self.tile_size,
            config.extra == self.extra,
    {
        let mut config = self;
        config.max_level = max_level;
        config
    }

    /// Builds the `GetMap` URL for one tile, given its bounding box already
    /// written in the axis order of this configuration's version.
    pub fn get_map_url(&self, bbox: &str) -> (url: String)
        ensures
            url@ == self.spec_get_map_url(bbox@),
    {
        let mut url = String::new();
        push_str(&mut url, self.endpoint.as_str());
        let endpoint = chars_of(self.endpoint.as_str());
        let has_query = contains(&endpoint, '?');
        push_char(&mut url, if has_query {
            '&'
        } else {
            '?'
        });
        let ghost head = url@;
        let ghost params = self.get_map_parameters(bbox@);
        self.push_fixed_parameters(&mut url, bbox);
        let mut i: usize = 0;
        while i < self.extra.len()
            invariant
                params == self.get_map_parameters(bbox@),
                params.len() == 11 + self.extra@.len(),
                i <= self.extra@.len(),
                url@ == head + query(params.take(11 + i)),
            decreases self.extra@.len() - i,
        {
            let pair = &self.extra[i];
            push_parameter(&mut url, false, pair.0.as_str(), pair.1.as_str());
            proof {
                assert(params.take(11 + i + 1).drop_last() =~= params.take(11 + i));
                assert(params[11 + i as int] == (self.extra@[i as int].0@, self.extra@[i as int].1@));
            }
            i = i + 1;
        }
        assert(params.take(params.len() as int) =~= params);
        url
    }

    /// Appends the parameters every `GetMap` request carries.
    fn push_fixed_parameters(&self, url: &mut String, bbox: &str)
        ensures
            final(url)@ == old(url)@ + query(self.get_map_parameters(bbox@).take(11)),
    {
        let ghost head = url@;
        let ghost params = self.get_map_parameters(bbox@);
        let mut size = String::new();
        push_decimal(&mut size, self.tile_size as u64);
        push_parameter(url, true, "SERVICE", "WMS");
        proof {
            lemma_query_first(params);
        }
        push_parameter(url, false, "VERSION", self.version.as_str());
        proof {
            lemma_query_step(params, head, url@, 1);
        }
        push_parameter(url, false, "REQUEST", "GetMap");
        proof {
            lemma_query_step(params, head, url@, 2);
        }
        push_parameter(url, false, "LAYERS", self.layers.as_str());
        proof {
            lemma_query_step(params, head, url@, 3);
        }
        push_parameter(url, false, "STYLES", self.styles.as_str());
        proof {
            lemma_query_step(params, head, url@, 4);
        }
        push_parameter(url, false, self.version.crs_parameter(), "EPSG:4326");
        proof {
            lemma_query_step(params, head, url@, 5);
        }
        push_parameter(url, false, "BBOX", bbox);
        proof {
            lemma_query_step(params, head, url@, 6);
        }
        push_parameter(url, false, "WIDTH", size.as_str());
        proof {
            lemma_query_step(params, head, url@, 7);
        }
        push_parameter(url, false, "HEIGHT", size.as_str());
        proof {
            lemma_query_step(params, head, url@, 8);
        }
        push_parameter(url, false, "FORMAT", self.format.mime());
        proof {
            lemma_query_step(params, head, url@, 9);
        }
        push_parameter(url, false, "TRANSPARENT", if self.transparent {
            "TRUE"
        } else {
            "FALSE"
        });
        proof {
            lemma_query_step(params, head, url@, 10);
        }
    }
}

proof fn lemma_without_drops_the_name(pairs: Seq<(Seq<char>, Seq<char>)>, name: Seq<char>)
    ensures
        forall|i: int| 0 <= i < without(pairs, name).len() ==> (#[trigger] without(pairs, name)[i]).0 != name,
    decreases pairs.len(),
{
    if pairs.len() > 0 {
        lemma_without_drops_the_name(pairs.drop_last(), name);
        let rest = without(pairs.drop_last(), name);
        assert forall|i: int| 0 <= i < without(pairs, name).len() implies (#[trigger] without(
            pairs,
            name,
        )[i]).0 != name by {
            if i < rest.len() {
                assert(without(pairs, name)[i] == rest[i]);
            }
        }
    }
}

proof fn lemma_without_nothing_named(pairs: Seq<(Seq<char>, Seq<char>)>, name: Seq<char>)
    requires
        forall|i: int| 0 <= i < pairs.len() ==> (#[trigger] pairs[i]).0 != name,
    ensures
        without(pairs, name) == pairs,
    decreases pairs.len(),
{
    if pairs.len() > 0 {
        lemma_without_nothing_named(pairs.drop_last(), name);
        assert(pairs.drop_last().push(pairs.last()) =~= pairs);
    } else {
        assert(pairs =~= Seq::<(Seq<char>, Seq<char>)>::empty());
    }
}

/// A parameter is set once: after it is added, the parameters hold exactly
/// one of its name — the last, carrying the value just given — however many
/// they held before.
pub proof fn a_parameter_is_set_once(
    pairs: Seq<(Seq<char>, Seq<char>)>,
    name: Seq<char>,
    value: Seq<char>,
)
    ensures
        ({
            let set = without(pairs, name).push((name, value));
            forall|i: int| 0 <= i < set.len() && (#[trigger] set[i]).0 == name ==> i == set.len() - 1
                && set[i].1 == value
        }),
{
    lemma_without_drops_the_name(pairs, name);
    let kept = without(pairs, name);
    let set = kept.push((name, value));
    assert forall|i: int| 0 <= i < set.len() && (#[trigger] set[i]).0 == name implies i == set.len() - 1
        && set[i].1 == value by {
        if i < kept.len() {
            assert(set[i] == kept[i]);
        }
    }
}

/// Setting a parameter again replaces it: the second value is all that is
/// left of the first setting.
pub proof fn setting_a_parameter_again_replaces_it(
    pairs: Seq<(Seq<char>, Seq<char>)>,
    name: Seq<char>,
    first: Seq<char>,
    second: Seq<char>,
)
    ensures
        without(without(pairs, name).push((name, first)), name).push((name, second)) == without(
            pairs,
            name,
        ).push((name, second)),
{
    let kept = without(pairs, name);
    assert(kept.push((name, first)).drop_last() =~= kept);
    lemma_without_drops_the_name(pairs, name);
    lemma_without_nothing_named(kept, name);
}

/// A query begins with its first parameter, written out whole.
proof fn lemma_query_begins_with_first(pairs: Seq<(Seq<char>, Seq<char>)>)
    requires
        pairs.len() >= 1,
    ensures
        query(pairs).len() >= parameter(pairs[0]).len(),
        query(pairs).take(parameter(pairs[0]).len() as int) == parameter(pairs[0]),
    decreases pairs.len(),
{
    if pairs.len() > 1 {
        lemma_query_begins_with_first(pairs.drop_last());
        assert(pairs.drop_last()[0] == pairs[0]);
        let n = parameter(pairs[0]).len() as int;
        let q = query(pairs.drop_last());
        assert(query(pairs).take(n) =~= q.take(n));
    } else {
        assert(query(pairs).take(parameter(pairs[0]).len() as int) =~= parameter(pairs[0]));
    }
}

/// A `GetMap` URL is the endpoint, then one separator, then the request
/// proper, which starts with `SERVICE=`. The separator opens the query with
/// `?` when the endpoint has none, and continues the endpoint's own query
/// with `&` when it has one — so the server always receives the parameters,
/// never a path that has swallowed them.
pub proof fn the_query_is_opened_where_the_endpoint_ends(config: WmsConfig, bbox: Seq<char>)
    ensures
        ({
            let url = config.spec_get_map_url(bbox);
            let e = config.endpoint@.len() as int;
            &&& url.len() > e + 8
            &&& url.take(e) == config.endpoint@
            &&& !contains_char(config.endpoint@, '?') ==> url[e] == '?'
            &&& contains_char(config.endpoint@, '?') ==> url[e] == '&'
            &&& url.subrange(e + 1, e + 9) == "SERVICE="@
        }),
{
    let url = config.spec_get_map_url(bbox);
    let e = config.endpoint@.len() as int;
    let params = config.get_map_parameters(bbox);
    lemma_query_begins_with_first(params);
    reveal_strlit("SERVICE");
    reveal_strlit("SERVICE=");
    reveal_strlit("WMS");
    let first = parameter(params[0]);
    assert(params[0] == ("SERVICE"@, "WMS"@));
    assert(first.take(8) =~= "SERVICE="@);
    assert(url.take(e) =~= config.endpoint@);
    assert(url.subrange(e + 1, e + 9) =~= query(params).take(first.len() as int).take(8));
}

proof fn lemma_query_first(pairs: Seq<(Seq<char>, Seq<char>)>)
    requires
        pairs.len() >= 1,
    ensures
        query(pairs.take(1)) == parameter(pairs[0]),
{
    assert(pairs.take(1)[0] == pairs[0]);
}

/// A query one parameter longer is the shorter one, `&`, and that parameter.
proof fn lemma_query_step(pairs: Seq<(Seq<char>, Seq<char>)>, head: Seq<char>, url: Seq<char>, j: int)
    requires
        1 <= j < pairs.len(),
        url == head + query(pairs.take(j)) + seq!['&'] + parameter(pairs[j]),
    ensures
        url == head + query(pairs.take(j + 1)),
{
    assert(pairs.take(j + 1).drop_last() =~= pairs.take(j));
    assert(pairs.take(j + 1).last() == pairs[j]);
    assert(url =~= head + query(pairs.take(j + 1)));
}

/// Writes a string in upper case, ASCII letters only.
fn to_ascii_uppercase(s: &str) -> (upper: String)
    ensures
        upper@ == ascii_uppercase(s@),
{
    let chars = chars_of(s);
    let mut out: Vec<char> = Vec::new();
    let mut i: usize = 0;
    while i < chars.len()
        invariant
            i <= chars@.len(),
            out@ == ascii_uppercase(chars@.take(i as int)),
        decreases chars@.len() - i,
    {
        let c = chars[i];
        let u = if 'a' <= c && c <= 'z' {
            ((c as u32) - 32) as u8 as char
        } else {
            c
        };
        proof {
            if 'a' <= c && c <= 'z' {
                assert(((c as u32) - 32) < 128);
            }
        }
        out.push(u);
        assert(out@ =~= ascii_uppercase(chars@.take(i + 1)));
        i = i + 1;
    }
    assert(chars@.take(chars@.len() as int) =~= chars@);
    string_of(&out)
}

/// Appends one parameter, after a `&` unless it is the first.
fn push_parameter(url: &mut String, first: bool, name: &str, value: &str)
    ensures
        final(url)@ == old(url)@ + (if first {
            Seq::<char>::empty()
        } else {
            seq!['&']
        }) + parameter((name@, value@)),
{
    if !first {
        push_char(url, '&');
    }
    push_str(url, name);
    push_char(url, '=');
    let encoded = percent_encode(value);
    push_str(url, encoded.as_str());
    assert(final(url)@ =~= old(url)@ + (if first {
        Seq::<char>::empty()
    } else {
        seq!['&']
    }) + parameter((name@, value@)));
}

/// The WMS presets a user cycles through.
pub type WmsSettings = ImagerySettings<WmsConfig>;

impl ImagerySettings<WmsConfig> {
    /// The active layer's name, as the readout shows it.
    pub fn label(&self) -> (label: String)
        requires
            self.wf(),
        ensures
            label@ == self.spec_active().label@,
    {
        self.active().label.clone()
    }

    /// How deep the active layer's quadtree may go.
    pub fn max_level(&self) -> (level: u8)
        requires
            self.wf(),
        ensures
            level == self.spec_active().max_level,
    {
        self.active().max_level
    }

    /// The extension the active layer's tiles are fetched under.
    pub fn tile_extension(&self) -> (extension: &'static str)
        requires
            self.wf(),
        ensures
            extension@ == self.spec_active().format.spec_extension(),
    {
        self.active().format.extension()
    }
}


/// The layers offered at startup, cycled through in turn. All come from NASA
/// GIBS, which needs no key; the dated ones are pinned to a day GIBS has
/// imagery for, because asking for today returns an empty tile.
pub fn imagery_layers() -> (presets: Vec<WmsConfig>)
    ensures
        presets@.len() == 4,
        presets@[0].label@ == "Blue Marble · shaded relief"@,
        presets@[0].layers@ == "BlueMarble_ShadedRelief_Bathymetry"@,
        presets@[0].max_level == 7,
        presets@[0].extra_view().len() == 0,
        presets@[1].label@ == "MODIS Terra · true colour"@,
        presets@[1].layers@ == "MODIS_Terra_CorrectedReflectance_TrueColor"@,
        presets@[1].max_level == 8,
        presets@[1].extra_view() == seq![("TIME"@, "2026-09-10"@)],
        presets@[2].label@ == "VIIRS · city lights"@,
        presets@[2].layers@ == "VIIRS_CityLights_2012"@,
        presets@[2].max_level == 7,
        presets@[2].extra_view().len() == 0,
        presets@[3].label@ == "MODIS Terra · land surface temperature"@,
        presets@[3].layers@ == "MODIS_Terra_Land_Surface_Temp_Day"@,
        presets@[3].max_level == 6,
        presets@[3].extra_view() == seq![("TIME"@, "2026-09-10"@)],
        forall|i: int|
            0 <= i < 4 ==> (#[trigger] presets@[i]).endpoint@
                == "https://gibs.earthdata.nasa.gov/wms/epsg4326/best/wms.cgi"@ && presets@[i].version
                == WmsVersion::V1_3_0 && presets@[i].format == WmsFormat::Jpeg && !presets@[i].transparent
                && presets@[i].tile_size == 256,
{
    proof {
        reveal_strlit("TIME");
    }
    let blue = WmsConfig::gibs("Blue Marble · shaded relief", "BlueMarble_ShadedRelief_Bathymetry").with_max_level(7);
    let modis = WmsConfig::gibs("MODIS Terra · true colour", "MODIS_Terra_CorrectedReflectance_TrueColor")
        .with_parameter("TIME", "2026-09-10")
        .with_max_level(8);
    let lights = WmsConfig::gibs("VIIRS · city lights", "VIIRS_CityLights_2012").with_max_level(7);
    let temperature = WmsConfig::gibs("MODIS Terra · land surface temperature", "MODIS_Terra_Land_Surface_Temp_Day")
        .with_parameter("TIME", "2026-09-10")
        .with_max_level(6);
    proof {
        assert(ascii_uppercase("TIME"@) =~= "TIME"@);
        assert(without(Seq::empty(), "TIME"@) =~= Seq::<(Seq<char>, Seq<char>)>::empty());
    }
    let mut presets: Vec<WmsConfig> = Vec::new();
    presets.push(blue);
    presets.push(modis);
    presets.push(lights);
    presets.push(temperature);
    presets
}

/// One of the imagery presets, as an embedder sees it before picking one.
pub struct LayerInfo {
    pub index: usize,
    pub label: String,
    pub protocol: &'static str,
    pub max_level: u8,
    pub tile_size: u32,
    /// `"jpg"` or `"png"`.
    pub format: &'static str,
}

/// How a preset in position `index` is described.
pub open spec fn describes(info: LayerInfo, index: int, preset: WmsConfig) -> bool {
    &&& info.index == index
    &&& info.label@ == preset.label@
    &&& info.protocol@ == "WMS"@
    &&& info.max_level == preset.max_level
    &&& info.tile_size == preset.tile_size
    &&& info.format@ == preset.format.spec_extension()
}

/// Describes the presets a globe built from this list would offer, in order.
pub fn describe_layers(presets: &[WmsConfig]) -> (layers: Vec<LayerInfo>)
    ensures
        layers@.len() == presets@.len(),
        forall|i: int| 0 <= i < presets@.len() ==> describes(#[trigger] layers@[i], i, presets@[i]),
{
    let mut layers: Vec<LayerInfo> = Vec::new();
    let mut i: usize = 0;
    while i < presets.len()
        invariant
            i <= presets@.len(),
            layers@.len() == i,
            forall|k: int| 0 <= k < i ==> describes(#[trigger] layers@[k], k, presets@[k]),
        decreases presets@.len() - i,
    {
        let preset = &presets[i];
        layers.push(
            LayerInfo {
                index: i,
                label: preset.label.clone(),
                protocol: "WMS",
                max_level: preset.max_level,
                tile_size: preset.tile_size,
                format: preset.format.extension(),
            },
        );
        i = i + 1;
    }
    layers
}

} // verus!
