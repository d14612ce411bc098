//! The imagery layer tiles are fetched from: the image encodings a layer can
//! be asked for, the percent-encoding of request parameters, and the presets
//! a user cycles through.
//!
//! Switching layers bumps a generation counter. The generation is part of
//! every tile path, so a tile of the new layer is never answered from a cache
//! of the old one.
use vstd::prelude::*;

use vstd::string::StringSliceAdditionalSpecFns;

use crate::text::push_char;

verus! {

/// The asset source scheme imagery tiles are loaded under.
pub const IMAGERY_SOURCE: &'static str = "imagery";

/// The image encoding to request.
#[derive(Debug, Clone, Copy, PartialEq, Eq, Structural)]
pub enum ImageFormat {
    Jpeg,
    Png,
}

impl ImageFormat {
    pub open spec fn spec_mime(self) -> Seq<char> {
        match self {
            ImageFormat::Jpeg => "image/jpeg"@,
            ImageFormat::Png => "image/png"@,
        }
    }

    pub open spec fn spec_extension(self) -> Seq<char> {
        match self {
            ImageFormat::Jpeg => "jpg"@,
            ImageFormat::Png => "png"@,
        }
    }

    pub fn mime(self) -> (mime: &'static str)
        ensures
            mime@ == self.spec_mime(),
    {
        match self {
            ImageFormat::Jpeg => "image/jpeg",
            ImageFormat::Png => "image/png",
        }
    }

    /// The extension the tile path ends in, which is what picks the decoder.
    pub fn extension(self) -> (extension: &'static str)
        ensures
            extension@ == self.spec_extension(),
    {
        match self {
            ImageFormat::Jpeg => "jpg",
            ImageFormat::Png => "png",
        }
    }
}

// ---------------------------------------------------------------------------
// Percent-encoding
// ---------------------------------------------------------------------------

/// The bytes a URL carries as they are: ASCII letters and digits and `-._~`.
pub open spec fn unreserved(b: u8) -> bool {
    ||| 65 <= b <= 90
    ||| 97 <= b <= 122
    ||| 48 <= b <= 57
    ||| b == 45
    ||| b == 46
    ||| b == 95
    ||| b == 126
}

/// One upper-case hexadecimal digit.
pub open spec fn hex_digit(d: u8) -> char {
    if d < 10 {
        ((d + 48) as u8) as char
    } else {
        ((d + 55) as u8) as char
    }
}

/// What one byte becomes: itself if it is unreserved, and otherwise `%`
/// followed by its two upper-case hexadecimal digits.
pub open spec fn encoded_byte(b: u8) -> Seq<char> {
    if unreserved(b) {
        seq![b as char]
    } else {
        seq!['%', hex_digit(b / 16), hex_digit(b % 16)]
    }
}

pub open spec fn percent_encoded(bytes: Seq<u8>) -> Seq<char>
    decreases bytes.len(),
{
    if bytes.len() == 0 {
        Seq::empty()
    } else {
        percent_encoded(bytes.drop_last()) + encoded_byte(bytes.last())
    }
}

fn exec_hex_digit(d: u8) -> (c: char)
    requires
        d < 16,
    ensures
        c == hex_digit(d),
{
    if d < 10 {
        (d + 48) as char
    } else {
        (d + 55) as char
    }
}

/// Percent-encodes a parameter value, byte by byte of its UTF-8 encoding.
///
/// Beyond correctness this keeps slashes and colons — `image/jpeg`,
/// `EPSG:4326` — out of the query string, where a path-shaped URL would
/// otherwise pick up path normalization on the way.
pub fn percent_encode(value: &str) -> (encoded: String)
    ensures
        encoded@ == percent_encoded(value.spec_bytes()),
{
    let bytes = value.as_bytes();
    let mut encoded = String::new();
    let mut i: usize = 0;
    while i < bytes.len()
        invariant
            bytes@ == value.spec_bytes(),
            i <= bytes@.len(),
            encoded@ == percent_encoded(bytes@.take(i as int)),
        decreases bytes@.len() - i,
    {
        let b = bytes[i];
        let ghost before = encoded@;
        assert(bytes@.take(i + 1).drop_last() =~= bytes@.take(i as int));
        if (65 <= b && b <= 90) || (97 <= b && b <= 122) || (48 <= b && b <= 57) || b == 45 || b == 46
            || b == 95 || b == 126 {
            push_char(&mut encoded, b as char);
        } else {
            push_char(&mut encoded, '%');
            push_char(&mut encoded, exec_hex_digit(b / 16));
            push_char(&mut encoded, exec_hex_digit(b % 16));
        }
        assert(encoded@ =~= before + encoded_byte(b));
        i = i + 1;
    }
    assert(bytes@.take(bytes@.len() as int) =~= bytes@);
    encoded
}

/// A character a query value can carry as it stands: an unreserved one, or
/// the `%` that opens an escape.
pub open spec fn query_safe(c: char) -> bool {
    ||| 'A' <= c <= 'Z'
    ||| 'a' <= c <= 'z'
    ||| '0' <= c <= '9'
    ||| c == '-'
    ||| c == '.'
    ||| c == '_'
    ||| c == '~'
    ||| c == '%'
}

proof fn lemma_encoded_byte_safe(b: u8)
    ensures
        forall|i: int| 0 <= i < encoded_byte(b).len() ==> query_safe(#[trigger] encoded_byte(b)[i]),
{
    assert(b / 16 < 16);
    assert(b % 16 < 16);
}

/// Nothing but unreserved characters and escapes comes out of encoding: no
/// slash or colon for a path-shaped URL to normalise, and no `&`, `=` or `?`
/// to be read as the query's own structure.
pub proof fn an_encoded_value_is_query_safe(bytes: Seq<u8>)
    ensures
        forall|i: int|
            0 <= i < percent_encoded(bytes).len() ==> query_safe(#[trigger] percent_encoded(bytes)[i]),
    decreases bytes.len(),
{
    if bytes.len() > 0 {
        an_encoded_value_is_query_safe(bytes.drop_last());
        lemma_encoded_byte_safe(bytes.last());
        let before = percent_encoded(bytes.drop_last());
        let last = encoded_byte(bytes.last());
        assert forall|i: int| 0 <= i < percent_encoded(bytes).len() implies query_safe(
            #[trigger] percent_encoded(bytes)[i],
        ) by {
            if i < before.len() {
                assert(percent_encoded(bytes)[i] == before[i]);
            } else {
                assert(percent_encoded(bytes)[i] == last[i - before.len()]);
            }
        }
    }
}

proof fn lemma_encoded_front(first: u8, rest: Seq<u8>)
    ensures
        percent_encoded(seq![first] + rest) == encoded_byte(first) + percent_encoded(rest),
    decreases rest.len(),
{
    if rest.len() == 0 {
        let one = seq![first] + rest;
        assert(one.drop_last() =~= Seq::<u8>::empty());
        assert(one.last() == first);
        assert(percent_encoded(one) == percent_encoded(one.drop_last()) + encoded_byte(first));
        assert(percent_encoded(one) =~= encoded_byte(first));
        assert(encoded_byte(first) + percent_encoded(rest) =~= encoded_byte(first));
    } else {
        lemma_encoded_front(first, rest.drop_last());
        assert((seq![first] + rest).drop_last() =~= seq![first] + rest.drop_last());
        assert((seq![first] + rest).last() == rest.last());
        assert(encoded_byte(first) + percent_encoded(rest.drop_last()) + encoded_byte(rest.last())
            =~= encoded_byte(first) + percent_encoded(rest));
    }
}

proof fn lemma_hex_digit_injective(d: u8, e: u8)
    requires
        d < 16,
        e < 16,
        hex_digit(d) == hex_digit(e),
    ensures
        d == e,
{
}

proof fn lemma_encoded_empty(bytes: Seq<u8>)
    ensures
        (percent_encoded(bytes).len() == 0) == (bytes.len() == 0),
{
    if bytes.len() > 0 {
        assert(encoded_byte(bytes.last()).len() >= 1);
        assert(percent_encoded(bytes) == percent_encoded(bytes.drop_last()) + encoded_byte(
            bytes.last(),
        ));
    }
}

/// Percent-encoding loses nothing: two values encode alike only when they
/// are the same bytes, so what a server decodes is what was meant.
#[verifier::spinoff_prover]
pub proof fn encoding_loses_nothing(a: Seq<u8>, b: Seq<u8>)
    requires
        percent_encoded(a) == percent_encoded(b),
    ensures
        a == b,
    decreases a.len(),
{
    lemma_encoded_empty(a);
    lemma_encoded_empty(b);
    if a.len() == 0 {
        assert(b.len() == 0);
        assert(a =~= b);
    } else {
        let (a0, ar) = (a[0], a.subrange(1, a.len() as int));
        let (b0, br) = (b[0], b.subrange(1, b.len() as int));
        assert(seq![a0] + ar =~= a);
        assert(seq![b0] + br =~= b);
        lemma_encoded_front(a0, ar);
        lemma_encoded_front(b0, br);
        let encoded = percent_encoded(a);
        let (front_a, front_b) = (encoded_byte(a0), encoded_byte(b0));
        assert(encoded == front_a + percent_encoded(ar));
        assert(encoded == front_b + percent_encoded(br));
        assert(front_a.len() >= 1 && front_b.len() >= 1);
        assert(encoded[0] == front_a[0]);
        assert(encoded[0] == front_b[0]);
        if unreserved(a0) != unreserved(b0) {
            assert(false);
        }
        if !unreserved(a0) {
            assert(front_a.len() == 3 && front_b.len() == 3);
            assert(encoded[1] == front_a[1]);
            assert(encoded[1] == front_b[1]);
            assert(encoded[2] == front_a[2]);
            assert(encoded[2] == front_b[2]);
            lemma_hex_digit_injective(a0 / 16, b0 / 16);
            lemma_hex_digit_injective(a0 % 16, b0 % 16);
        }
        assert(a0 == b0);
        let width = front_a.len() as int;
        assert(percent_encoded(ar) =~= encoded.subrange(width, encoded.len() as int));
        assert(percent_encoded(br) =~= encoded.subrange(width, encoded.len() as int));
        encoding_loses_nothing(ar, br);
        assert(a =~= b);
    }
}

// ---------------------------------------------------------------------------
// Presets
// ---------------------------------------------------------------------------

/// The preset after `index`, wrapping past the end.
pub open spec fn next_index(index: int, len: int) -> int {
    (index + 1) % len
}

/// The preset before `index`, wrapping past the start.
pub open spec fn previous_index(index: int, len: int) -> int {
    (index + len - 1) % len
}

/// The generation after `g`, wrapping.
pub open spec fn next_generation(g: u32) -> u32 {
    if g == u32::MAX {
        0
    } else {
        (g + 1) as u32
    }
}

/// The layers a user cycles through, the one in use, and the generation the
/// tile paths carry.
pub struct ImagerySettings<L> {
    presets: Vec<L>,
    /// What is fetched from while there are no presets.
    fallback: L,
    preset_index: usize,
    generation: u32,
    enabled: bool,
}

impl<L> ImagerySettings<L> {
    pub closed spec fn presets(&self) -> Seq<L> {
        self.presets@
    }

    pub closed spec fn spec_fallback(&self) -> L {
        self.fallback
    }

    pub closed spec fn spec_preset_index(&self) -> usize {
        self.preset_index
    }

    pub closed spec fn spec_generation(&self) -> u32 {
        self.generation
    }

    pub closed spec fn spec_enabled(&self) -> bool {
        self.enabled
    }

    /// The index names a preset whenever there is one.
    pub open spec fn wf(&self) -> bool {
        if self.presets().len() == 0 {
            self.spec_preset_index() == 0
        } else {
            self.spec_preset_index() < self.presets().len()
        }
    }

    /// Whether the index names a preset whenever there is one, for a caller
    /// that cannot carry the proof along.
    pub fn is_well_formed(&self) -> (ok: bool)
        ensures
            ok == self.wf(),
    {
        if self.presets.len() == 0 {
            self.preset_index == 0
        } else {
            self.preset_index < self.presets.len()
        }
    }

    /// The layer tiles are fetched from: the selected preset, or the fallback
    /// while there are none.
    pub open spec fn spec_active(&self) -> L {
        if self.presets().len() == 0 {
            self.spec_fallback()
        } else {
            self.presets()[self.spec_preset_index() as int]
        }
    }

    /// The settings after switching to preset `index`, wrapping past the end:
    /// a new generation, so no tile of the old layer is reused. Nothing
    /// switches without presets.
    pub open spec fn switched_to(&self, before: &Self, index: int) -> bool {
        &&& self.wf()
        &&& self.presets() == before.presets()
        &&& self.spec_fallback() == before.spec_fallback()
        &&& self.spec_enabled() == before.spec_enabled()
        &&& if before.presets().len() == 0 {
            &&& self.spec_preset_index() == before.spec_preset_index()
            &&& self.spec_generation() == before.spec_generation()
        } else {
            &&& self.spec_preset_index() == index % (before.presets().len() as int)
            &&& self.spec_generation() == next_generation(before.spec_generation())
        }
    }

    /// Starts on the first preset, at generation 0.
    pub fn new(presets: Vec<L>, fallback: L, enabled: bool) -> (settings: Self)
        ensures
            settings.wf(),
            settings.presets() == presets@,
            settings.spec_fallback() == fallback,
            settings.spec_preset_index() == 0,
            settings.spec_generation() == 0,
            settings.spec_enabled() == enabled,
    {
        ImagerySettings { presets, fallback, preset_index: 0, generation: 0, enabled }
    }

    pub fn generation(&self) -> (generation: u32)
        ensures
            generation == self.spec_generation(),
    {
        self.generation
    }

    pub fn preset_index(&self) -> (index: usize)
        ensures
            index == self.spec_preset_index(),
    {
        self.preset_index
    }

    pub fn preset_list(&self) -> (presets: &Vec<L>)
        ensures
            presets@ == self.presets(),
    {
        &self.presets
    }

    pub fn enabled(&self) -> (enabled: bool)
        ensures
            enabled == self.spec_enabled(),
    {
        self.enabled
    }

    pub fn set_enabled(&mut self, enabled: bool)
        requires
            old(self).wf(),
        ensures
            final(self).wf(),
            final(self).spec_enabled() == enabled,
            final(self).presets() == old(self).presets(),
            final(self).spec_fallback() == old(self).spec_fallback(),
            final(self).spec_preset_index() == old(self).spec_preset_index(),
            final(self).spec_generation() == old(self).spec_generation(),
    {
        self.enabled = enabled;
    }

    /// The layer in use.
    pub fn active(&self) -> (layer: &L)
        requires
            self.wf(),
        ensures
            *layer == self.spec_active(),
    {
        if self.presets.len() == 0 {
            &self.fallback
        } else {
            &self.presets[self.preset_index]
        }
    }

    /// Switches to a preset by index, wrapping past the end of the list, and
    /// invalidates every loaded tile. Nothing happens without presets.
    pub fn select_preset(&mut self, index: usize)
        requires
            old(self).wf(),
        ensures
            final(self).switched_to(old(self), index as int),
    {
        if self.presets.len() == 0 {
            return;
        }
        self.preset_index = index % self.presets.len();
        self.generation = if self.generation == u32::MAX {
            0
        } else {
            self.generation + 1
        };
    }

    /// Switches to the next preset.
    pub fn cycle_preset(&mut self)
        requires
            old(self).wf(),
        ensures
            final(self).switched_to(old(self), old(self).spec_preset_index() + 1),
    {
        if self.presets.len() == 0 {
            return;
        }
        self.select_preset(self.preset_index + 1);
    }

    /// Switches to the previous preset, which is how the same scene is
    /// compared across two layers without cycling the whole list.
    pub fn cycle_preset_back(&mut self)
        requires
            old(self).wf(),
        ensures
            final(self).switched_to(
                old(self),
                old(self).spec_preset_index() + old(self).presets().len() - 1,
            ),
    {
        let len = self.presets.len();
        if len == 0 {
            return;
        }
        let index = self.preset_index;
        // `(index + len - 1) % len`, without the sum that could overflow.
        let previous = if index == 0 {
            len - 1
        } else {
            index - 1
        };
        proof {
            let (i, n) = (index as int, len as int);
            if i == 0 {
                assert((i + n - 1) % n == n - 1) by (nonlinear_arith)
                    requires
                        i == 0,
                        n > 0,
                ;
            } else {
                assert((i + n - 1) % n == i - 1) by (nonlinear_arith)
                    requires
                        0 < i < n,
                ;
            }
        }
        self.select_preset(previous);
        proof {
            let n = len as int;
            assert((previous as int) % n == previous as int) by (nonlinear_arith)
                requires
                    0 <= previous < n,
            ;
        }
    }
}

/// Stepping back undoes stepping forward.
pub proof fn back_undoes_forward(index: int, len: int)
    requires
        0 <= index < len,
    ensures
        previous_index(next_index(index, len), len) == index,
        next_index(previous_index(index, len), len) == index,
{
    if index + 1 == len {
        assert(next_index(index, len) == 0) by (nonlinear_arith)
            requires
                index + 1 == len,
                len > 0,
        ;
        assert((0 + len - 1) % len == len - 1) by (nonlinear_arith)
            requires
                len > 0,
        ;
    } else {
        assert(next_index(index, len) == index + 1) by (nonlinear_arith)
            requires
                0 <= index,
                index + 1 < len,
        ;
        assert((index + 1 + len - 1) % len == index) by (nonlinear_arith)
            requires
                0 <= index < len,
        ;
    }
    if index == 0 {
        assert(previous_index(0, len) == len - 1) by (nonlinear_arith)
            requires
                len > 0,
        ;
        assert((len - 1 + 1) % len == 0) by (nonlinear_arith)
            requires
                len > 0,
        ;
    } else {
        assert(previous_index(index, len) == index - 1) by (nonlinear_arith)
            requires
                0 < index < len,
        ;
        assert((index - 1 + 1) % len == index) by (nonlinear_arith)
            requires
                0 < index < len,
        ;
    }
}

/// The preset reached after `steps` steps forward.
pub open spec fn forward(index: int, len: int, steps: nat) -> int
    decreases steps,
{
    if steps == 0 {
        index
    } else {
        next_index(forward(index, len, (steps - 1) as nat), len)
    }
}

/// Stepping forward once per preset comes back to where it started.
pub proof fn cycling_through_every_preset_returns(index: int, len: int)
    requires
        0 <= index < len,
    ensures
        forward(index, len, len as nat) == index,
{
    lemma_forward_is_offset(index, len, len as nat);
    assert((index + len) % len == index) by (nonlinear_arith)
        requires
            0 <= index < len,
    ;
}

proof fn lemma_forward_is_offset(index: int, len: int, steps: nat)
    requires
        0 <= index < len,
    ensures
        forward(index, len, steps) == (index + steps) % len,
    decreases steps,
{
    if steps > 0 {
        lemma_forward_is_offset(index, len, (steps - 1) as nat);
        let prior = (index + steps - 1) % len;
        assert((prior + 1) % len == (index + steps) % len) by (nonlinear_arith)
            requires
                prior == (index + steps - 1) % len,
                len > 0,
        ;
    } else {
        assert((index + 0) % len == index) by (nonlinear_arith)
            requires
                0 <= index < len,
        ;
    }
}

} // verus!
