//! The glyph-metrics table: how wide each character is drawn.
//!
//! Widths are whole numbers of layout units, [`UNITS_PER_PIXEL`] to the
//! pixel, so that sums of widths are exact.

use std::collections::HashMap;
use vstd::prelude::*;
use vstd::std_specs::iter::IteratorSpec;

verus! {

/// Layout units in one pixel.
pub const UNITS_PER_PIXEL: u32 = 1000;

/// Width, in layout units, assumed for a character that the table lacks.
pub const DEFAULT_GLYPH_WIDTH: u32 = 7 * UNITS_PER_PIXEL;

/// Width of `c` under `table`, which maps a character's scalar value to its
/// width: the entry of `c`, or the default width without one.
pub open spec fn glyph_width(table: Map<u32, u32>, c: char) -> nat {
    if table.contains_key(c as u32) {
        table[c as u32] as nat
    } else {
        DEFAULT_GLYPH_WIDTH as nat
    }
}

/// Width of `text` under `table`: the sum of the widths of its characters.
pub open spec fn text_width(table: Map<u32, u32>, text: Seq<char>) -> nat
    decreases text.len(),
{
    if text.len() == 0 {
        0
    } else {
        glyph_width(table, text[0]) + text_width(table, text.drop_first())
    }
}

/// The width `exact` as a `u64` holds it: itself, or `u64::MAX` if larger.
pub open spec fn saturated(exact: nat) -> u64 {
    if exact > u64::MAX {
        u64::MAX
    } else {
        exact as u64
    }
}

/// Widths of characters at one fixed font and size.
pub struct GlyphTable {
    widths: HashMap<u32, u32>,
}

impl View for GlyphTable {
    /// From a character's scalar value to its width in layout units.
    type V = Map<u32, u32>;

    closed spec fn view(&self) -> Map<u32, u32> {
        self.widths@
    }
}

impl GlyphTable {
    /// A table without entries: every character has the default width.
    pub fn new() -> (table: Self)
        ensures
            table@ == Map::<u32, u32>::empty(),
    {
        GlyphTable { widths: HashMap::new() }
    }

    /// Records `width` layout units for `c`, in place of any earlier entry.
    pub fn set_width(&mut self, c: char, width: u32)
        ensures
            final(self)@ == old(self)@.insert(c as u32, width),
    {
        broadcast use vstd::std_specs::hash::group_hash_axioms;
        self.widths.insert(c as u32, width);
    }

    /// Width of `c` in layout units; the default width if `c` has no entry.
    pub fn width_of(&self, c: char) -> (width: u32)
        ensures
            width == glyph_width(self@, c),
    {
        broadcast use vstd::std_specs::hash::group_hash_axioms;
        match self.widths.get(&(c as u32)) {
            Some(w) => *w,
            None => DEFAULT_GLYPH_WIDTH,
        }
    }

    /// Width of `text` in layout units, saturating at `u64::MAX`.
    pub fn measure(&self, text: &str) -> (width: u64)
        ensures
            width == saturated(text_width(self@, text@)),
    {
        broadcast use vstd::string::group_string_axioms;
        let mut chars = text.chars();
        let mut total: u64 = 0;
        let ghost mut exact: nat = 0;
        loop
            invariant
                text_width(self@, text@) == exact + text_width(self@, chars.remaining()),
                total == saturated(exact),
                chars.decrease() is Some,
            decreases chars.decrease()->0,
        {
            match chars.next() {
                None => { return total; },
                Some(c) => {
                    let w = self.width_of(c);
                    proof {
                        exact = exact + w as nat;
                    }
                    total = total.saturating_add(w as u64);
                },
            }
        }
    }
}

} // verus!
