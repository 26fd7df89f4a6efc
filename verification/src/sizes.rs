//! The sizes of the photos and the size of a video that holds them all.

use crate::options::{full_hd, Resolution};
use crate::text::texts;
use vstd::hash_map::StringHashMap;
use vstd::prelude::*;

verus! {

/// The sizes of the photos. Photos are named by their paths.
pub struct Sizes {
    /// The size of a video that holds every photo, once it was worked out.
    pub native: Option<Resolution>,
    /// The sizes that were read, or nothing for a photo that cannot be read.
    pub known: StringHashMap<Option<(u32, u32)>>,
}

/// What sizes stand for.
pub struct SizesView {
    pub native: Option<Resolution>,
    pub known: Map<Seq<char>, Option<(u32, u32)>>,
}

impl View for Sizes {
    type V = SizesView;

    open spec fn view(&self) -> SizesView {
        SizesView { native: self.native, known: self.known@ }
    }
}

/// No sizes are known.
pub open spec fn no_sizes() -> SizesView {
    SizesView { native: None, known: Map::empty() }
}

/// The size of a picture that is shown as its EXIF orientation asks for: with an
/// orientation from 5 to 8 it lies on its side.
pub fn upright_size(orientation: u8, w: u32, h: u32) -> (r: (u32, u32))
    ensures
        r == (if 5 <= orientation <= 8 {
            (h, w)
        } else {
            (w, h)
        }),
{
    if 5 <= orientation && orientation <= 8 {
        (h, w)
    } else {
        (w, h)
    }
}

/// The greater of two numbers.
pub open spec fn max_u32(a: u32, b: u32) -> u32 {
    if b > a {
        b
    } else {
        a
    }
}

/// The greatest width and height among the first `n` photos whose sizes are known.
pub open spec fn greatest_size(
    photos: Seq<Seq<char>>,
    known: Map<Seq<char>, Option<(u32, u32)>>,
    n: int,
) -> (u32, u32)
    decreases n,
{
    if n <= 0 {
        (0, 0)
    } else {
        let size = greatest_size(photos, known, n - 1);
        let p = photos[n - 1];
        if known.contains_key(p) && known[p] is Some {
            (max_u32(size.0, known[p].unwrap().0), max_u32(size.1, known[p].unwrap().1))
        } else {
            size
        }
    }
}

/// The greatest even number that is not above `n`, and at least 2.
pub open spec fn even_down(n: u32) -> u32 {
    if n < 2 {
        2
    } else {
        (n - n % 2) as u32
    }
}

/// The size of a video that holds a picture of this size; Full HD where none is known.
pub open spec fn size_for(size: (u32, u32)) -> Resolution {
    if size.0 == 0 || size.1 == 0 {
        full_hd()
    } else {
        Resolution { w: even_down(size.0), h: even_down(size.1) }
    }
}

/// The photos whose sizes are not known, in order.
pub open spec fn without_size(
    photos: Seq<Seq<char>>,
    known: Map<Seq<char>, Option<(u32, u32)>>,
) -> Seq<Seq<char>>
    decreases photos.len(),
{
    if photos.len() == 0 {
        seq![]
    } else if known.contains_key(photos.last()) {
        without_size(photos.drop_last(), known)
    } else {
        without_size(photos.drop_last(), known).push(photos.last())
    }
}

impl SizesView {
    /// The size of the video for the chosen one: that one, or the size of the photos.
    pub open spec fn output_size(self, chosen: Resolution, photos: Seq<Seq<char>>) -> Resolution {
        if chosen.w != 0 {
            chosen
        } else {
            match self.native {
                Some(r) => r,
                None => size_for(greatest_size(photos, self.known, photos.len() as int)),
            }
        }
    }
}

impl Sizes {
    /// No sizes are known.
    pub fn new() -> (r: Self)
        ensures
            r@ == no_sizes(),
    {
        Sizes { native: None, known: StringHashMap::new() }
    }

    /// Nothing is known any more.
    pub fn clear(&mut self)
        ensures
            final(self)@ == no_sizes(),
    {
        self.native = None;
        self.known.clear();
    }

    /// A photo has gone.
    pub fn forget(&mut self, photo: &str)
        ensures
            final(self)@ == (SizesView { native: None, known: old(self)@.known.remove(photo@) }),
    {
        self.native = None;
        self.known.remove(photo);
    }

    /// Keeps the size of a photo, or that it cannot be read.
    pub fn record(&mut self, photo: &str, size: Option<(u32, u32)>)
        ensures
            final(self)@ == (SizesView {
                known: old(self)@.known.insert(photo@, size),
                ..old(self)@
            }),
    {
        self.known.insert(photo.to_owned(), size);
    }

    /// The photos whose sizes are needed for the size of the video and not known yet.
    pub fn unknown(&self, chosen: Resolution, photos: &Vec<String>) -> (r: Vec<String>)
        ensures
            texts(r@) == (if chosen.w == 0 && self.native is None {
                without_size(texts(photos@), self@.known)
            } else {
                seq![]
            }),
    {
        let ghost v = texts(photos@);
        let mut r: Vec<String> = Vec::new();
        assert(texts(r@) =~= seq![]);
        if !chosen.is_native() || self.native.is_some() {
            return r;
        }
        let mut i: usize = 0;
        assert(v.take(0) =~= seq![]);
        while i < photos.len()
            invariant
                i <= photos.len(),
                v == texts(photos@),
                texts(r@) == without_size(v.take(i as int), self@.known),
            decreases photos.len() - i,
        {
            assert(v[i as int] == photos[i as int]@);
            assert(v.take(i + 1).drop_last() =~= v.take(i as int));
            assert(v.take(i + 1).last() == v[i as int]);
            let ghost before = r@;
            if !self.known.contains_key(photos[i].as_str()) {
                r.push(photos[i].clone());
                assert(texts(r@) =~= texts(before).push(v[i as int]));
            }
            i += 1;
        }
        assert(v.take(v.len() as int) =~= v);
        r
    }

    /// The size of the video for the chosen one: that one, or the size of the photos,
    /// which is worked out once.
    pub fn resolve(&mut self, chosen: Resolution, photos: &Vec<String>) -> (r: Resolution)
        ensures
            r == old(self)@.output_size(chosen, texts(photos@)),
            final(self)@ == (SizesView {
                native: if chosen.w == 0 {
                    Some(r)
                } else {
                    old(self)@.native
                },
                ..old(self)@
            }),
    {
        if !chosen.is_native() {
            return chosen;
        }
        match self.native {
            Some(r) => {
                return r;
            },
            None => {},
        }
        let ghost v = texts(photos@);
        let mut w: u32 = 0;
        let mut h: u32 = 0;
        let mut i: usize = 0;
        while i < photos.len()
            invariant
                i <= photos.len(),
                v == texts(photos@),
                *self == *old(self),
                (w, h) == greatest_size(v, self@.known, i as int),
            decreases photos.len() - i,
        {
            assert(v[i as int] == photos[i as int]@);
            match self.known.get(photos[i].as_str()) {
                Some(d) => match *d {
                    Some((pw, ph)) => {
                        if pw > w {
                            w = pw;
                        }
                        if ph > h {
                            h = ph;
                        }
                    },
                    None => {},
                },
                None => {},
            }
            i += 1;
        }
        let r: Resolution = if w == 0 || h == 0 {
            Resolution { w: 1920, h: 1080 }
        } else {
            Resolution {
                w: if w < 2 {
                    2
                } else {
                    w - w % 2
                },
                h: if h < 2 {
                    2
                } else {
                    h - h % 2
                },
            }
        };
        self.native = Some(r);
        r
    }
}

proof fn lemma_greatest_size(
    photos: Seq<Seq<char>>,
    known: Map<Seq<char>, Option<(u32, u32)>>,
    n: int,
    k: int,
)
    requires
        0 <= k < n <= photos.len(),
        known.contains_key(photos[k]),
    ensures
        known[photos[k]] matches Some((w, h)) ==> w <= greatest_size(photos, known, n).0 && h
            <= greatest_size(photos, known, n).1,
    decreases n,
{
    if k < n - 1 {
        lemma_greatest_size(photos, known, n - 1, k);
    }
}

/// The size of the photos is even, at least 2 by 2, and too small for no photo by more
/// than one column or line.
pub proof fn native_size_is_even_and_large_enough(
    photos: Seq<Seq<char>>,
    known: Map<Seq<char>, Option<(u32, u32)>>,
    k: int,
)
    requires
        0 <= k < photos.len(),
    ensures
        ({
            let r = size_for(greatest_size(photos, known, photos.len() as int));
            &&& r.w % 2 == 0 && r.h % 2 == 0
            &&& r.w >= 2 && r.h >= 2
            &&& known.contains_key(photos[k]) && (known[photos[k]] matches Some((w, h)) && w > 0
                && h > 0) ==> known[photos[k]].unwrap().0 <= r.w + 1 && known[photos[k]].unwrap().1
                <= r.h + 1
        }),
{
    if known.contains_key(photos[k]) {
        lemma_greatest_size(photos, known, photos.len() as int, k);
    }
}

} // verus!
