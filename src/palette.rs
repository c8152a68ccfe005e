use vstd::prelude::*;

use crate::raster::RgbRaster;

verus! {

/// Number of slots in a palette.
pub const PALETTE_LEN: usize = 16;

/// Mask keeping the top five bits of an 8-bit channel.
pub const COL_MASK: u8 = 0xF8;

/// Marker held by the slots of a palette that are not in use.
pub const SENTINEL: u16 = 0xFFFF;

/// The packed code of an RGB triple: each channel masked to its top five bits,
/// blue shifted by ten, green by five, red in place, in a 16-bit word (bits
/// shifted past bit 15 are dropped).
pub open spec fn packed_code(r: u8, g: u8, b: u8) -> u16 {
    ((((b & COL_MASK) as u16) << 10u16) | (((g & COL_MASK) as u16) << 5u16)) | ((r & COL_MASK) as u16)
}

/// Packs an RGB triple into its 16-bit color code.
pub fn condense(r: u8, g: u8, b: u8) -> (code: u16)
    ensures
        code == packed_code(r, g, b),
{
    let rval = (r & COL_MASK) as u16;
    let gval = (g & COL_MASK) as u16;
    let bval = (b & COL_MASK) as u16;
    ((bval << 10u16) | (gval << 5u16)) | rval
}

/// The packed code of a pixel given by its channels, red first; a pixel has at
/// least three channels.
pub fn to_bgr(pix: &[u8]) -> (code: u16)
    requires
        pix@.len() >= 3,
    ensures
        code == packed_code(pix@[0], pix@[1], pix@[2]),
{
    condense(pix[0], pix[1], pix[2])
}

/// Masking the low three bits of each channel first does not change the code.
pub proof fn lemma_packed_code_masked(r: u8, g: u8, b: u8)
    by (bit_vector)
    ensures
        packed_code(r, g, b) == packed_code(r & COL_MASK, g & COL_MASK, b & COL_MASK),
{
}

/// A packed code never equals the sentinel, and its top bit is clear whenever
/// bit 5 of the blue channel (the one shifted into bit 15) is clear.
pub proof fn lemma_packed_code_not_sentinel(r: u8, g: u8, b: u8)
    by (bit_vector)
    ensures
        packed_code(r, g, b) != SENTINEL,
        packed_code(r, g, b) & 7 == 0,
        b & 0x20 == 0 ==> packed_code(r, g, b) < 0x8000,
{
}

/// The distinct values of `s`, each once, in order of first appearance.
pub open spec fn first_seen(s: Seq<u16>) -> Seq<u16>
    decreases s.len(),
{
    if s.len() == 0 {
        Seq::<u16>::empty()
    } else {
        let d = first_seen(s.drop_last());
        if d.contains(s.last()) {
            d
        } else {
            d.push(s.last())
        }
    }
}

/// `first_seen(s)` holds each value of `s` exactly once and nothing else, so its
/// length is the number of distinct values in `s`.
pub proof fn lemma_first_seen(s: Seq<u16>)
    ensures
        first_seen(s).no_duplicates(),
        first_seen(s).to_set() == s.to_set(),
        first_seen(s).len() == s.to_set().len(),
    decreases s.len(),
{
    if s.len() == 0 {
        assert(s.to_set() =~= Set::<u16>::empty());
        assert(first_seen(s).to_set() =~= Set::<u16>::empty());
    } else {
        let p = s.drop_last();
        lemma_first_seen(p);
        let d = first_seen(p);
        assert(s =~= p.push(s.last()));
        p.lemma_push_to_set_commute(s.last());
        if !d.contains(s.last()) {
            d.lemma_push_to_set_commute(s.last());
            assert forall|i: int, j: int|
                0 <= i < d.push(s.last()).len() && 0 <= j < d.push(s.last()).len() && i != j
                implies d.push(s.last())[i] != d.push(s.last())[j] by {
                if i < d.len() && j < d.len() {
                } else if i < d.len() {
                    assert(d.contains(d[i]));
                } else {
                    assert(d.contains(d[j]));
                }
            }
        } else {
            assert(s.to_set() =~= p.to_set()) by {
                assert(p.to_set().contains(s.last()));
            }
        }
    }
    first_seen(s).unique_seq_to_set();
}

/// A prefix of `s` has no more distinct values than `s`.
proof fn lemma_prefix_distinct_count(s: Seq<u16>, k: int)
    requires
        0 <= k <= s.len(),
    ensures
        s.subrange(0, k).to_set().len() <= s.to_set().len(),
{
    assert(s.subrange(0, k).to_set().subset_of(s.to_set())) by {
        assert forall|x: u16| s.subrange(0, k).to_set().contains(x) implies s.to_set().contains(x) by {
            let i = choose|i: int| 0 <= i < k && s.subrange(0, k)[i] == x;
            assert(s[i] == x);
        }
    }
    vstd::seq_lib::seq_to_set_is_finite(s);
    vstd::set_lib::lemma_len_subset(s.subrange(0, k).to_set(), s.to_set());
}

/// A palette: sixteen slots of packed color codes, of which the first `used`
/// are in use. Unused slots normally hold `SENTINEL`.
pub struct Palette {
    used: usize,
    entries: [u16; PALETTE_LEN],
}

/// Why a palette could not be built or applied.
#[derive(PartialEq, Eq, Structural, Debug, Clone, Copy)]
pub enum Error {
    /// A seventeenth distinct color was met.
    TooManyColors,
    /// A pixel's color is not among the palette's colors in use.
    UnindexedColor,
}

impl Palette {
    /// All sixteen slots, in use or not.
    pub closed spec fn slots(&self) -> Seq<u16> {
        self.entries@
    }

    /// How many slots are in use.
    pub closed spec fn used_count(&self) -> nat {
        self.used as nat
    }

    /// At most sixteen slots are in use.
    pub closed spec fn wf(&self) -> bool {
        self.used <= PALETTE_LEN
    }

    /// The colors in use, in slot order.
    pub open spec fn colors(&self) -> Seq<u16> {
        self.slots().subrange(0, self.used_count() as int)
    }

    /// Every slot past those in use holds the sentinel.
    pub open spec fn rest_is_sentinel(&self) -> bool {
        forall|i: int| self.used_count() <= i < PALETTE_LEN ==> #[trigger] self.slots()[i] == SENTINEL
    }

    /// `idx` is the first slot in use that holds `col`.
    pub open spec fn first_slot_of(&self, col: u16, idx: int) -> bool {
        &&& 0 <= idx < self.used_count()
        &&& self.slots()[idx] == col
        &&& forall|j: int| 0 <= j < idx ==> #[trigger] self.slots()[j] != col
    }

    /// The palette is in use with exactly the colors `cols`, in this order, and
    /// the other slots hold the sentinel.
    pub open spec fn holds_exactly(&self, cols: Seq<u16>) -> bool {
        &&& self.wf()
        &&& self.colors() == cols
        &&& self.rest_is_sentinel()
    }

    /// `buf` gives, for each code of `codes`, the first slot in use that holds it.
    pub open spec fn indexes(&self, codes: Seq<u16>, buf: Seq<u8>) -> bool {
        &&& buf.len() == codes.len()
        &&& forall|k: int| 0 <= k < codes.len() ==> self.first_slot_of(codes[k], #[trigger] buf[k] as int)
    }

    proof fn lemma_len(&self)
        ensures
            self.slots().len() == PALETTE_LEN,
            self.wf() ==> self.colors().len() == self.used_count(),
    {
    }

    /// An empty palette: no slot in use, every slot the sentinel.
    pub fn new() -> (p: Self)
        ensures
            p.holds_exactly(Seq::<u16>::empty()),
            p.used_count() == 0,
            p.slots() == Seq::new(PALETTE_LEN as nat, |i: int| SENTINEL),
    {
        let p = Palette { used: 0, entries: [SENTINEL; PALETTE_LEN] };
        assert(p.slots() =~= Seq::new(PALETTE_LEN as nat, |i: int| SENTINEL));
        assert(p.colors() =~= Seq::<u16>::empty());
        p
    }

    /// A palette with the given slots, of which the first `min(used, 16)` are in use.
    pub fn init(cols: [u16; PALETTE_LEN], used: usize) -> (p: Self)
        ensures
            p.wf(),
            p.slots() == cols@,
            p.used_count() == if used <= PALETTE_LEN { used as nat } else { PALETTE_LEN as nat },
    {
        let used = if used <= PALETTE_LEN { used } else { PALETTE_LEN };
        Palette { used, entries: cols }
    }

    /// The code in slot `i`, in use or not.
    pub fn get_color(&self, i: usize) -> (col: u16)
        requires
            i < PALETTE_LEN,
        ensures
            col == self.slots()[i as int],
    {
        self.entries[i]
    }

    /// Overwrites slot `i` with `col`; the count in use stays.
    pub fn set_color(&mut self, i: usize, col: u16)
        requires
            i < PALETTE_LEN,
        ensures
            final(self).slots() == old(self).slots().update(i as int, col),
            final(self).used_count() == old(self).used_count(),
            final(self).wf() == old(self).wf(),
    {
        self.entries[i] = col;
    }

    /// Appends `col` in the first slot not in use; fails when all sixteen are in
    /// use, leaving the palette as it was. Duplicates are not checked for.
    pub fn add_color(&mut self, col: u16) -> (r: Result<(), Error>)
        requires
            old(self).wf(),
        ensures
            final(self).wf(),
            old(self).used_count() == PALETTE_LEN ==> r == Err::<(), Error>(Error::TooManyColors)
                && *final(self) == *old(self),
            old(self).used_count() < PALETTE_LEN ==> r == Ok::<(), Error>(())
                && final(self).used_count() == old(self).used_count() + 1
                && final(self).slots() == old(self).slots().update(old(self).used_count() as int, col),
    {
        if self.used >= PALETTE_LEN {
            return Err(Error::TooManyColors);
        }
        let used = self.used;
        self.set_color(used, col);
        self.used = self.used + 1;
        Ok(())
    }

    /// Replaces each color in use by `f` of it, slot by slot; the slots not in
    /// use and the count in use stay.
    pub fn map<F>(&mut self, f: F)
        where
            F: Fn(u16) -> u16,
        requires
            old(self).wf(),
            forall|x: u16| f.requires((x,)),
        ensures
            final(self).wf(),
            final(self).used_count() == old(self).used_count(),
            forall|i: int| 0 <= i < old(self).used_count() ==> f.ensures((old(self).slots()[i],), #[trigger] final(self).slots()[i]),
            forall|i: int| old(self).used_count() <= i < PALETTE_LEN ==> #[trigger] final(self).slots()[i] == old(self).slots()[i],
    {
        let ghost start = *self;
        let mut i: usize = 0;
        while i < self.used
            invariant
                start.wf(),
                self.used == start.used,
                i <= self.used,
                forall|x: u16| f.requires((x,)),
                self.slots().len() == PALETTE_LEN,
                forall|j: int| 0 <= j < i ==> f.ensures((start.slots()[j],), #[trigger] self.slots()[j]),
                forall|j: int| i <= j < PALETTE_LEN ==> #[trigger] self.slots()[j] == start.slots()[j],
            decreases self.used - i,
        {
            let x = self.entries[i];
            self.entries[i] = f(x);
            i = i + 1;
        }
    }

    /// Whether any of the sixteen slots, in use or not, holds `col`.
    pub fn contains(&self, col: u16) -> (r: bool)
        ensures
            r == self.slots().contains(col),
    {
        let mut i: usize = 0;
        while i < PALETTE_LEN
            invariant
                i <= PALETTE_LEN,
                self.slots().len() == PALETTE_LEN,
                forall|j: int| 0 <= j < i ==> self.slots()[j] != col,
            decreases PALETTE_LEN - i,
        {
            if self.entries[i] == col {
                return true;
            }
            i = i + 1;
        }
        false
    }

    /// The first slot in use that holds `col`, if any.
    pub fn find(&self, col: u16) -> (r: Option<u8>)
        requires
            self.wf(),
        ensures
            r matches Some(idx) ==> self.first_slot_of(col, idx as int),
            r is None <==> !self.colors().contains(col),
    {
        let mut i: usize = 0;
        while i < self.used
            invariant
                i <= self.used <= PALETTE_LEN,
                self.slots().len() == PALETTE_LEN,
                forall|j: int| 0 <= j < i ==> self.slots()[j] != col,
            decreases self.used - i,
        {
            if self.entries[i] == col {
                assert(self.colors()[i as int] == col);
                return Some(i as u8);
            }
            i = i + 1;
        }
        proof {
            if self.colors().contains(col) {
                let k = choose|k: int| 0 <= k < self.colors().len() && self.colors()[k] == col;
                assert(self.slots()[k] == col);
            }
        }
        None
    }

    /// Builds a palette from the colors of `im` in order of first appearance,
    /// scanning in row-major order, together with each pixel's palette index.
    /// Fails when the image has more than sixteen distinct codes.
    pub fn from_unindexed_image(im: &RgbRaster) -> (r: Result<(Self, Vec<u8>), Error>)
        requires
            im.wf(),
        ensures
            (r is Ok) <==> im.codes().to_set().len() <= PALETTE_LEN,
            r matches Ok((p, buf)) ==> p.holds_exactly(first_seen(im.codes()))
                && p.used_count() == im.codes().to_set().len()
                && p.indexes(im.codes(), buf@),
            r matches Err(e) ==> e == Error::TooManyColors,
    {
        let mut result = Self::new();
        let mut img: Vec<u8> = Vec::new();
        let n = im.num_pixels();
        let mut k: usize = 0;
        while k < n
            invariant
                im.wf(),
                n == im.pixel_count(),
                k <= n,
                result.holds_exactly(first_seen(im.codes().subrange(0, k as int))),
                result.indexes(im.codes().subrange(0, k as int), img@),
            decreases n - k,
        {
            let ghost prefix = im.codes().subrange(0, k as int);
            let ghost before = result;
            let col = im.pixel_code(k);
            assert(im.codes().subrange(0, k + 1) =~= prefix.push(col));
            assert(prefix.push(col).drop_last() =~= prefix);
            proof {
                result.lemma_len();
            }
            match result.find(col) {
                Some(i) => {
                    img.push(i);
                    assert(result.colors()[i as int] == col);
                    assert(first_seen(prefix.push(col)) =~= first_seen(prefix));
                },
                None => {
                    let used = result.used;
                    match result.add_color(col) {
                        Err(e) => {
                            proof {
                                lemma_first_seen(prefix.push(col));
                                lemma_prefix_distinct_count(im.codes(), k + 1);
                            }
                            return Err(e);
                        },
                        Ok(()) => {},
                    }
                    img.push(used as u8);
                    proof {
                        result.lemma_len();
                        assert(result.colors() =~= before.colors().push(col));
                        assert forall|j: int| 0 <= j < k + 1 implies result.first_slot_of(
                            im.codes().subrange(0, k + 1)[j],
                            #[trigger] img@[j] as int,
                        ) by {
                            if j < k {
                                assert(before.first_slot_of(prefix[j], img@[j] as int));
                            } else {
                                assert forall|i: int| 0 <= i < used implies #[trigger] result.slots()[i] != col by {
                                    assert(before.colors()[i] == result.slots()[i]);
                                }
                            }
                        }
                    }
                },
            }
            k = k + 1;
        }
        proof {
            assert(im.codes().subrange(0, n as int) =~= im.codes());
            lemma_first_seen(im.codes());
            result.lemma_len();
        }
        Ok((result, img))
    }

    /// Builds a palette from the reserved strip of `im`: the last eight pixels
    /// of row 0, each new code appended in order of first appearance. A code is
    /// new when no slot, in use or not, holds it.
    pub fn from_indexed_image(im: &RgbRaster) -> (p: Self)
        requires
            im.wf(),
            im.width_spec() >= 8,
            im.height_spec() >= 1,
        ensures
            p.holds_exactly(first_seen(im.strip_codes())),
            p.used_count() == im.strip_codes().to_set().len(),
            p.used_count() <= 8,
    {
        let mut result = Self::new();
        let width = im.width();
        let mut w: u32 = width - 8;
        proof {
            im.lemma_row_zero();
        }
        while w < width
            invariant
                im.wf(),
                width == im.width_spec(),
                8 <= width,
                width - 8 <= w <= width,
                width <= im.pixel_count(),
                result.holds_exactly(first_seen(im.codes().subrange(width - 8, w as int))),
                result.used_count() <= w - (width - 8),
            decreases width - w,
        {
            let ghost strip = im.codes().subrange(width - 8, w as int);
            let ghost before = result;
            let col = im.pixel_code(w as usize);
            assert(im.codes().subrange(width - 8, w + 1) =~= strip.push(col));
            assert(strip.push(col).drop_last() =~= strip);
            proof {
                result.lemma_len();
                lemma_packed_code_not_sentinel(im.bytes()[3 * w], im.bytes()[3 * w + 1], im.bytes()[3 * w + 2]);
                if result.slots().contains(col) {
                    let i = choose|i: int| 0 <= i < PALETTE_LEN && result.slots()[i] == col;
                    assert(result.colors()[i] == col);
                }
            }
            if !result.contains(col) {
                let added = result.add_color(col);
                assert(added is Ok);
                proof {
                    result.lemma_len();
                    assert(result.colors() =~= before.colors().push(col));
                }
            } else {
                proof {
                    let i = choose|i: int| 0 <= i < PALETTE_LEN && result.slots()[i] == col;
                    assert(result.colors()[i] == col);
                }
            }
            w = w + 1;
        }
        proof {
            lemma_first_seen(im.strip_codes());
            im.strip_codes().lemma_cardinality_of_set();
        }
        result
    }

    /// Maps every pixel of `im` to the first slot in use that holds its code.
    /// Fails when some pixel's code is not among the colors in use.
    pub fn index_image(&self, im: &RgbRaster) -> (r: Result<Vec<u8>, Error>)
        requires
            self.wf(),
            im.wf(),
        ensures
            (r is Ok) <==> (forall|k: int| 0 <= k < im.pixel_count() ==> self.colors().contains(#[trigger] im.codes()[k])),
            r matches Ok(buf) ==> self.indexes(im.codes(), buf@),
            r matches Err(e) ==> e == Error::UnindexedColor,
    {
        let mut result: Vec<u8> = Vec::new();
        let n = im.num_pixels();
        let mut k: usize = 0;
        while k < n
            invariant
                self.wf(),
                im.wf(),
                n == im.pixel_count(),
                k <= n,
                self.indexes(im.codes().subrange(0, k as int), result@),
                forall|j: int| 0 <= j < k ==> self.colors().contains(#[trigger] im.codes()[j]),
            decreases n - k,
        {
            let col = im.pixel_code(k);
            match self.find(col) {
                Some(x) => {
                    result.push(x);
                    proof {
                        assert(self.colors()[x as int] == col);
                        assert forall|j: int| 0 <= j < k + 1 implies self.first_slot_of(
                            im.codes().subrange(0, k + 1)[j],
                            #[trigger] result@[j] as int,
                        ) by {
                            if j < k {
                                assert(self.first_slot_of(im.codes().subrange(0, k as int)[j], result@[j] as int));
                            }
                        }
                    }
                },
                None => {
                    assert(im.codes()[k as int] == col);
                    return Err(Error::UnindexedColor);
                },
            }
            k = k + 1;
        }
        assert(im.codes().subrange(0, n as int) =~= im.codes());
        Ok(result)
    }
}

/// A fresh palette holds the sentinel in a slot, so `contains` finds it there,
/// and holds no packed code at all.
pub proof fn lemma_fresh_palette_contains(p: Palette, r: u8, g: u8, b: u8)
    requires
        p.used_count() == 0,
        p.slots() == Seq::new(PALETTE_LEN as nat, |i: int| SENTINEL),
    ensures
        p.slots().contains(SENTINEL),
        !p.slots().contains(packed_code(r, g, b)),
{
    assert(p.slots()[0] == SENTINEL);
    lemma_packed_code_not_sentinel(r, g, b);
}

} // verus!
