use vstd::prelude::*;

verus! {

/// Number of entries in the catalog of standard ad sizes.
pub const CATALOG_LEN: usize = 18;

/// One catalog entry: the standard size and the inclusive tolerance
/// rectangle of raw sizes that snap to it.
#[derive(Clone, Copy, Debug, PartialEq, Eq)]
pub struct SizeWindow {
    pub width: u32,
    pub height: u32,
    pub min_w: u32,
    pub min_h: u32,
    pub max_w: u32,
    pub max_h: u32,
}

/// The catalog, in the priority order used by the first-match rule.
pub open spec fn catalog(i: int) -> SizeWindow {
    if i == 0 {
        SizeWindow { width: 300, height: 250, min_w: 290, min_h: 240, max_w: 310, max_h: 260 }
    } else if i == 1 {
        SizeWindow { width: 320, height: 50, min_w: 310, min_h: 45, max_w: 330, max_h: 55 }
    } else if i == 2 {
        SizeWindow { width: 320, height: 100, min_w: 310, min_h: 90, max_w: 330, max_h: 110 }
    } else if i == 3 {
        SizeWindow { width: 728, height: 90, min_w: 718, min_h: 85, max_w: 738, max_h: 95 }
    } else if i == 4 {
        SizeWindow { width: 160, height: 600, min_w: 150, min_h: 590, max_w: 170, max_h: 610 }
    } else if i == 5 {
        SizeWindow { width: 300, height: 600, min_w: 290, min_h: 590, max_w: 310, max_h: 610 }
    } else if i == 6 {
        SizeWindow { width: 970, height: 250, min_w: 960, min_h: 240, max_w: 980, max_h: 260 }
    } else if i == 7 {
        SizeWindow { width: 970, height: 90, min_w: 960, min_h: 85, max_w: 980, max_h: 95 }
    } else if i == 8 {
        SizeWindow { width: 468, height: 60, min_w: 458, min_h: 55, max_w: 478, max_h: 65 }
    } else if i == 9 {
        SizeWindow { width: 120, height: 600, min_w: 110, min_h: 590, max_w: 130, max_h: 610 }
    } else if i == 10 {
        SizeWindow { width: 250, height: 250, min_w: 240, min_h: 240, max_w: 260, max_h: 260 }
    } else if i == 11 {
        SizeWindow { width: 336, height: 280, min_w: 326, min_h: 270, max_w: 346, max_h: 290 }
    } else if i == 12 {
        SizeWindow { width: 180, height: 150, min_w: 170, min_h: 140, max_w: 190, max_h: 160 }
    } else if i == 13 {
        SizeWindow { width: 300, height: 100, min_w: 290, min_h: 90, max_w: 310, max_h: 110 }
    } else if i == 14 {
        SizeWindow { width: 320, height: 480, min_w: 310, min_h: 470, max_w: 330, max_h: 490 }
    } else if i == 15 {
        SizeWindow { width: 480, height: 320, min_w: 470, min_h: 310, max_w: 490, max_h: 330 }
    } else if i == 16 {
        SizeWindow { width: 1024, height: 768, min_w: 1014, min_h: 758, max_w: 1034, max_h: 778 }
    } else {
        SizeWindow { width: 768, height: 1024, min_w: 758, min_h: 1014, max_w: 778, max_h: 1034 }
    }
}

/// The standard size of catalog entry `i`.
pub open spec fn catalog_point(i: int) -> (u32, u32) {
    (catalog(i).width, catalog(i).height)
}

/// Whether the tolerance rectangle of `win` holds the raw size `(w, h)`.
pub open spec fn window_holds(win: SizeWindow, w: u32, h: u32) -> bool {
    win.min_w <= w <= win.max_w && win.min_h <= h <= win.max_h
}

/// Canonical size of `(w, h)`, scanning the catalog from entry `i` on:
/// the first entry whose window holds the size wins; past the end the
/// size stands for itself.
pub open spec fn canonical_from(w: u32, h: u32, i: int) -> (u32, u32)
    decreases CATALOG_LEN - i,
{
    if i < 0 || i >= CATALOG_LEN {
        (w, h)
    } else if window_holds(catalog(i), w, h) {
        catalog_point(i)
    } else {
        canonical_from(w, h, i + 1)
    }
}

/// Canonical size of the raw size `(w, h)`.
pub open spec fn canonical_of(w: u32, h: u32) -> (u32, u32) {
    canonical_from(w, h, 0)
}

/// Whether `p` is one of the catalog's standard sizes.
pub open spec fn is_catalog_point(p: (u32, u32)) -> bool {
    exists|i: int| 0 <= i < CATALOG_LEN && #[trigger] catalog_point(i) == p
}

/// A size is standard when its canonical size is a catalog point.
pub open spec fn is_standard(w: u32, h: u32) -> bool {
    is_catalog_point(canonical_of(w, h))
}

/// Catalog entry `i`.
pub fn catalog_entry(i: usize) -> (e: SizeWindow)
    requires
        i < CATALOG_LEN,
    ensures
        e == catalog(i as int),
{
    match i {
        0 => SizeWindow { width: 300, height: 250, min_w: 290, min_h: 240, max_w: 310, max_h: 260 },
        1 => SizeWindow { width: 320, height: 50, min_w: 310, min_h: 45, max_w: 330, max_h: 55 },
        2 => SizeWindow { width: 320, height: 100, min_w: 310, min_h: 90, max_w: 330, max_h: 110 },
        3 => SizeWindow { width: 728, height: 90, min_w: 718, min_h: 85, max_w: 738, max_h: 95 },
        4 => SizeWindow { width: 160, height: 600, min_w: 150, min_h: 590, max_w: 170, max_h: 610 },
        5 => SizeWindow { width: 300, height: 600, min_w: 290, min_h: 590, max_w: 310, max_h: 610 },
        6 => SizeWindow { width: 970, height: 250, min_w: 960, min_h: 240, max_w: 980, max_h: 260 },
        7 => SizeWindow { width: 970, height: 90, min_w: 960, min_h: 85, max_w: 980, max_h: 95 },
        8 => SizeWindow { width: 468, height: 60, min_w: 458, min_h: 55, max_w: 478, max_h: 65 },
        9 => SizeWindow { width: 120, height: 600, min_w: 110, min_h: 590, max_w: 130, max_h: 610 },
        10 => SizeWindow { width: 250, height: 250, min_w: 240, min_h: 240, max_w: 260, max_h: 260 },
        11 => SizeWindow { width: 336, height: 280, min_w: 326, min_h: 270, max_w: 346, max_h: 290 },
        12 => SizeWindow { width: 180, height: 150, min_w: 170, min_h: 140, max_w: 190, max_h: 160 },
        13 => SizeWindow { width: 300, height: 100, min_w: 290, min_h: 90, max_w: 310, max_h: 110 },
        14 => SizeWindow { width: 320, height: 480, min_w: 310, min_h: 470, max_w: 330, max_h: 490 },
        15 => SizeWindow { width: 480, height: 320, min_w: 470, min_h: 310, max_w: 490, max_h: 330 },
        16 => SizeWindow {
            width: 1024,
            height: 768,
            min_w: 1014,
            min_h: 758,
            max_w: 1034,
            max_h: 778,
        },
        _ => SizeWindow {
            width: 768,
            height: 1024,
            min_w: 758,
            min_h: 1014,
            max_w: 778,
            max_h: 1034,
        },
    }
}

/// Maps a raw size to its canonical standard size: the first catalog entry
/// (in priority order) whose tolerance window holds the size, or the size
/// itself when no window does.
pub fn canonical_size(w: u32, h: u32) -> (r: (u32, u32))
    ensures
        r == canonical_of(w, h),
{
    let mut i: usize = 0;
    while i < CATALOG_LEN
        invariant
            i <= CATALOG_LEN,
            canonical_of(w, h) == canonical_from(w, h, i as int),
        decreases CATALOG_LEN - i,
    {
        let e = catalog_entry(i);
        if e.min_w <= w && w <= e.max_w && e.min_h <= h && h <= e.max_h {
            return (e.width, e.height);
        }
        i = i + 1;
    }
    (w, h)
}

/// Whether the raw size canonicalizes to one of the catalog's standard
/// sizes exactly.
pub fn is_standard_size(w: u32, h: u32) -> (r: bool)
    ensures
        r == is_standard(w, h),
{
    let c = canonical_size(w, h);
    let mut i: usize = 0;
    while i < CATALOG_LEN
        invariant
            i <= CATALOG_LEN,
            c == canonical_of(w, h),
            forall|j: int| 0 <= j < i ==> #[trigger] catalog_point(j) != c,
        decreases CATALOG_LEN - i,
    {
        let e = catalog_entry(i);
        if e.width == c.0 && e.height == c.1 {
            assert(catalog_point(i as int) == c);
            return true;
        }
        i = i + 1;
    }
    false
}

/// Every catalog point sits in its own tolerance window and in no window of
/// an earlier entry, so it canonicalizes to itself.
pub proof fn lemma_catalog_point_fixed(i: int)
    requires
        0 <= i < CATALOG_LEN,
    ensures
        canonical_of(catalog_point(i).0, catalog_point(i).1) == catalog_point(i),
{
    reveal_with_fuel(canonical_from, 19);
}

/// Canonicalization is idempotent: the canonical size of a canonical size
/// is that same size.
pub proof fn lemma_canonical_idempotent(w: u32, h: u32)
    ensures
        canonical_of(canonical_of(w, h).0, canonical_of(w, h).1) == canonical_of(w, h),
{
    lemma_canonical_is_point_or_self(w, h, 0);
    if canonical_of(w, h) != (w, h) {
        let i = choose|i: int| 0 <= i < CATALOG_LEN && #[trigger] catalog_point(i) == canonical_of(w, h);
        lemma_catalog_point_fixed(i);
    }
}

/// From entry `k` on, the scan yields either some catalog point or the size
/// itself.
proof fn lemma_canonical_is_point_or_self(w: u32, h: u32, k: int)
    requires
        0 <= k <= CATALOG_LEN,
    ensures
        canonical_from(w, h, k) == (w, h) || exists|i: int|
            0 <= i < CATALOG_LEN && #[trigger] catalog_point(i) == canonical_from(w, h, k),
    decreases CATALOG_LEN - k,
{
    if k < CATALOG_LEN {
        if window_holds(catalog(k), w, h) {
            assert(catalog_point(k) == canonical_from(w, h, k));
        } else {
            lemma_canonical_is_point_or_self(w, h, k + 1);
        }
    }
}

} // verus!
