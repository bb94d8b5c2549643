use vstd::prelude::*;

verus! {

/// Number of colors in the series palette.
pub const PALETTE_LEN: usize = 5;

/// The palette entry at `slot`, for `slot` in `0..5`.
pub open spec fn palette_entry(slot: int) -> Seq<char> {
    if slot == 0 {
        "#ff00c1"@
    } else if slot == 1 {
        "#9600ff"@
    } else if slot == 2 {
        "#4900ff"@
    } else if slot == 3 {
        "#00b8ff"@
    } else {
        "#00fff9"@
    }
}

/// Color of the series drawn at position `index`: the palette is cycled.
pub open spec fn series_color(index: nat) -> Seq<char> {
    palette_entry((index % PALETTE_LEN as nat) as int)
}

/// Stroke and fill color of the series at position `index`.
pub fn get_color(index: usize) -> (r: &'static str)
    ensures
        r@ == series_color(index as nat),
{
    let slot = index % PALETTE_LEN;
    if slot == 0 {
        "#ff00c1"
    } else if slot == 1 {
        "#9600ff"
    } else if slot == 2 {
        "#4900ff"
    } else if slot == 3 {
        "#00b8ff"
    } else {
        "#00fff9"
    }
}

/// Colors repeat after one full palette: the series at `index + 5` has the
/// color of the series at `index`.
pub proof fn lemma_color_cycle(index: nat)
    ensures
        series_color(index + PALETTE_LEN as nat) == series_color(index),
{
    vstd::arithmetic::div_mod::lemma_mod_add_multiples_vanish(index as int, PALETTE_LEN as int);
}

} // verus!
