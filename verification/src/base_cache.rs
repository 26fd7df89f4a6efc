//! Scaled-down copies of the photos that were shown last, for fast previews.

use crate::adjust::Adjustments;
use crate::graph::{preview_chain, preview_filter};
use crate::text::text_view;
use vstd::prelude::*;

verus! {

/// How many copies are kept.
pub const CAPACITY: usize = 4;

/// What a copy was made of: the photo as it was last changed, and the size of the
/// preview.
pub struct BaseKey {
    pub photo: String,
    /// When the photo was last changed, if that is known.
    pub changed: Option<i128>,
    pub w: u32,
    pub h: u32,
}

/// What a key stands for.
pub struct KeyView {
    pub photo: Seq<char>,
    pub changed: Option<i128>,
    pub w: u32,
    pub h: u32,
}

impl View for BaseKey {
    type V = KeyView;

    open spec fn view(&self) -> KeyView {
        KeyView { photo: self.photo@, changed: self.changed, w: self.w, h: self.h }
    }
}

/// A copy; while it is being made there is no file.
pub struct PreviewBase {
    pub key: BaseKey,
    pub file: Option<String>,
    pub serial: u64,
}

/// What a copy stands for.
pub struct BaseView {
    pub key: KeyView,
    pub file: Option<Seq<char>>,
    pub serial: u64,
}

impl View for PreviewBase {
    type V = BaseView;

    open spec fn view(&self) -> BaseView {
        BaseView { key: self.key@, file: text_view(self.file), serial: self.serial }
    }
}

/// The copies, the one that was used last at the end, and the next serial number.
pub struct BaseCache {
    pub items: Vec<PreviewBase>,
    pub next: u64,
}

/// What a list of copies stands for.
pub open spec fn base_views(v: Seq<PreviewBase>) -> Seq<BaseView> {
    v.map_values(|b: PreviewBase| b@)
}

/// What the cache stands for.
pub struct CacheView {
    pub items: Seq<BaseView>,
    pub next: u64,
}

impl View for BaseCache {
    type V = CacheView;

    open spec fn view(&self) -> CacheView {
        CacheView { items: base_views(self.items@), next: self.next }
    }
}

/// The first place from `i` on with this key.
pub open spec fn place_of(items: Seq<BaseView>, key: KeyView, i: int) -> Option<int>
    decreases items.len() - i,
{
    if i < 0 || i >= items.len() {
        None
    } else if items[i].key == key {
        Some(i)
    } else {
        place_of(items, key, i + 1)
    }
}

/// The first place from `i` on with this key and serial number.
pub open spec fn place_of_serial(
    items: Seq<BaseView>,
    key: KeyView,
    serial: u64,
    i: int,
) -> Option<int>
    decreases items.len() - i,
{
    if i < 0 || i >= items.len() {
        None
    } else if items[i].serial == serial && items[i].key == key {
        Some(i)
    } else {
        place_of_serial(items, key, serial, i + 1)
    }
}

impl CacheView {
    /// There are not too many copies, and no two for the same key.
    pub open spec fn wf(self) -> bool {
        &&& self.items.len() <= CAPACITY
        &&& forall|a: int, b: int|
            0 <= a < b < self.items.len() ==> (#[trigger] self.items[a]).key != (
            #[trigger] self.items[b]).key
    }

    /// The copies that stay when another one is to be made: without the one that has not
    /// been used for longest, if there is no room.
    pub open spec fn with_room(self) -> Seq<BaseView> {
        if self.items.len() >= CAPACITY {
            self.items.remove(0)
        } else {
            self.items
        }
    }

    /// A copy for the key is being made.
    pub open spec fn reserved(self, key: KeyView) -> CacheView {
        CacheView {
            items: self.with_room().push(BaseView { key, file: None, serial: self.next }),
            next: if self.next == u64::MAX {
                0
            } else {
                (self.next + 1) as u64
            },
        }
    }

    /// The copy at place `i` is used.
    pub open spec fn used(self, i: int) -> CacheView {
        CacheView { items: self.items.remove(i).push(self.items[i]), ..self }
    }
}

/// What is known of the copy for a preview.
pub enum BaseRole {
    /// There is one, in this file.
    Cached(String),
    /// It is being made, or could not be made.
    Pending,
    /// There is none.
    Absent,
}

/// A way to render a preview: the file to begin with and the filters.
pub struct Attempt {
    pub input: String,
    pub filter: String,
}

/// What a way to render a preview stands for.
pub struct AttemptView {
    pub input: Seq<char>,
    pub filter: Seq<char>,
}

impl View for Attempt {
    type V = AttemptView;

    open spec fn view(&self) -> AttemptView {
        AttemptView { input: self.input@, filter: self.filter@ }
    }
}

/// What a list of ways to render a preview stands for.
pub open spec fn attempt_views(v: Seq<Attempt>) -> Seq<AttemptView> {
    v.map_values(|a: Attempt| a@)
}

/// The file of the copy, if there is one.
pub open spec fn copy_of(role: BaseRole) -> Option<Seq<char>> {
    match role {
        BaseRole::Cached(f) => Some(f@),
        _ => None,
    }
}

/// The ways to render a preview of a photo, best first: the copy, which needs no
/// scaling, if there is one, and the photo itself in case the copy has gone.
pub open spec fn ways(
    copy: Option<Seq<char>>,
    photo: Seq<char>,
    adj: Adjustments,
    px: int,
    w: u32,
    h: u32,
) -> Seq<AttemptView> {
    let full = AttemptView { input: photo, filter: preview_chain(adj, px, w, h, false) };
    match copy {
        Some(f) => seq![
            AttemptView { input: f, filter: preview_chain(adj, px, w, h, true) },
            full,
        ],
        None => seq![full],
    }
}

/// The ways to render a preview of a photo, best first. `px` is the radius of the
/// clarity filter, `w` and `h` the size of the preview.
pub fn attempts(
    role: &BaseRole,
    photo: &str,
    adj: &Adjustments,
    px: i32,
    w: u32,
    h: u32,
) -> (r: Vec<Attempt>)
    ensures
        attempt_views(r@) == ways(copy_of(*role), photo@, *adj, px as int, w, h),
{
    let mut r: Vec<Attempt> = Vec::new();
    match role {
        BaseRole::Cached(f) => {
            r.push(Attempt { input: f.clone(), filter: preview_filter(adj, px, w, h, true) });
        },
        _ => {},
    }
    r.push(Attempt { input: photo.to_owned(), filter: preview_filter(adj, px, w, h, false) });
    assert(attempt_views(r@) =~= ways(copy_of(*role), photo@, *adj, px as int, w, h));
    r
}

/// A copy that is to be made.
pub struct Reserved {
    pub serial: u64,
    /// The file of the copy that had to go.
    pub remove: Option<String>,
}

impl BaseKey {
    /// Whether two keys are the same.
    pub fn same_as(&self, other: &BaseKey) -> (r: bool)
        ensures
            r == (self@ == other@),
    {
        let dated: bool = match (self.changed, other.changed) {
            (Some(a), Some(b)) => a == b,
            (None, None) => true,
            _ => false,
        };
        self.photo == other.photo && dated && self.w == other.w && self.h == other.h
    }
}

impl BaseCache {
    /// No copies.
    pub fn new() -> (r: Self)
        ensures
            r@.items == Seq::<BaseView>::empty(),
            r@.next == 0,
            r@.wf(),
    {
        let r = BaseCache { items: Vec::new(), next: 0 };
        assert(r@.items =~= Seq::<BaseView>::empty());
        r
    }

    fn find(&self, key: &BaseKey) -> (r: Option<usize>)
        ensures
            match r {
                Some(i) => place_of(self@.items, key@, 0) == Some(i as int) && i
                    < self@.items.len(),
                None => place_of(self@.items, key@, 0) is None,
            },
    {
        let ghost v = self@.items;
        let mut i: usize = 0;
        while i < self.items.len()
            invariant
                i <= self.items.len(),
                v == self@.items,
                place_of(v, key@, 0) == place_of(v, key@, i as int),
            decreases self.items.len() - i,
        {
            assert(v[i as int] == self.items[i as int]@);
            if self.items[i].key.same_as(key) {
                return Some(i);
            }
            i += 1;
        }
        None
    }

    /// Begins a copy for the key, unless there is one. A copy that has not been used for
    /// longest makes room.
    pub fn reserve(&mut self, key: BaseKey) -> (r: Option<Reserved>)
        requires
            old(self)@.wf(),
        ensures
            r is Some <==> place_of(old(self)@.items, key@, 0) is None,
            match r {
                Some(job) => {
                    &&& job.serial == old(self)@.next
                    &&& text_view(job.remove) == (if old(self)@.items.len() >= CAPACITY {
                        old(self)@.items[0].file
                    } else {
                        None
                    })
                    &&& final(self)@ == old(self)@.reserved(key@)
                },
                None => final(self)@ == old(self)@,
            },
            final(self)@.wf(),
    {
        let ghost v = self@;
        if self.find(&key).is_some() {
            return None;
        }
        proof {
            lemma_absent(v.items, key@, 0);
        }
        let mut remove: Option<String> = None;
        if self.items.len() >= CAPACITY {
            assert(v.items[0] == self.items[0]@);
            let gone = self.items.remove(0);
            remove = gone.file;
        }
        assert(self@.items =~= v.with_room());
        let serial: u64 = self.next;
        self.next = if serial == u64::MAX {
            0
        } else {
            serial + 1
        };
        let ghost base = BaseView { key: key@, file: None, serial };
        self.items.push(PreviewBase { key, file: None, serial });
        assert(self@.items =~= v.with_room().push(base));
        Some(Reserved { serial, remove })
    }

    /// The copy with this key and serial number is done; says whether it is still
    /// wanted.
    pub fn store(&mut self, key: &BaseKey, serial: u64, file: &str) -> (r: bool)
        ensures
            match place_of_serial(old(self)@.items, key@, serial, 0) {
                Some(i) => {
                    &&& r
                    &&& final(self)@ == (CacheView {
                        items: old(self)@.items.update(
                            i,
                            BaseView { file: Some(file@), ..old(self)@.items[i] },
                        ),
                        ..old(self)@
                    })
                },
                None => !r && final(self)@ == old(self)@,
            },
            old(self)@.wf() ==> final(self)@.wf(),
    {
        let ghost v = self@.items;
        let mut i: usize = 0;
        while i < self.items.len()
            invariant
                i <= self.items.len(),
                *self == *old(self),
                v == self@.items,
                place_of_serial(v, key@, serial, 0) == place_of_serial(v, key@, serial, i as int),
            decreases self.items.len() - i,
        {
            assert(v[i as int] == self.items[i as int]@);
            if self.items[i].serial == serial && self.items[i].key.same_as(key) {
                let done = PreviewBase {
                    key: BaseKey {
                        photo: self.items[i].key.photo.clone(),
                        changed: self.items[i].key.changed,
                        w: self.items[i].key.w,
                        h: self.items[i].key.h,
                    },
                    file: Some(file.to_owned()),
                    serial,
                };
                self.items.set(i, done);
                assert(self@.items =~= v.update(
                    i as int,
                    BaseView { file: Some(file@), ..v[i as int] },
                ));
                return true;
            }
            i += 1;
        }
        false
    }

    /// Looks for the copy for the key; it then counts as the one that was used last.
    pub fn lookup(&mut self, key: &BaseKey) -> (r: BaseRole)
        ensures
            match place_of(old(self)@.items, key@, 0) {
                Some(i) => {
                    &&& final(self)@ == old(self)@.used(i)
                    &&& match old(self)@.items[i].file {
                        Some(f) => r matches BaseRole::Cached(s) && s@ == f,
                        None => r is Pending,
                    }
                },
                None => r is Absent && final(self)@ == old(self)@,
            },
            old(self)@.wf() ==> final(self)@.wf(),
    {
        let ghost v = self@;
        match self.find(key) {
            Some(i) => {
                assert(v.items[i as int] == self.items[i as int]@);
                let b = self.items.remove(i);
                let role = match &b.file {
                    Some(f) => BaseRole::Cached(f.clone()),
                    None => BaseRole::Pending,
                };
                self.items.push(b);
                assert(self@.items =~= v.used(i as int).items);
                proof {
                    if v.wf() {
                        using_a_copy_keeps_the_cache_sound(v, i as int);
                    }
                }
                role
            },
            None => BaseRole::Absent,
        }
    }

    /// Forgets the copy for the key; its file is handed back.
    pub fn discard(&mut self, key: &BaseKey) -> (r: Option<String>)
        ensures
            match place_of(old(self)@.items, key@, 0) {
                Some(i) => {
                    &&& final(self)@ == (CacheView {
                        items: old(self)@.items.remove(i),
                        ..old(self)@
                    })
                    &&& text_view(r) == old(self)@.items[i].file
                },
                None => r is None && final(self)@ == old(self)@,
            },
            old(self)@.wf() ==> final(self)@.wf(),
    {
        let ghost v = self@;
        match self.find(key) {
            Some(i) => {
                assert(v.items[i as int] == self.items[i as int]@);
                let b = self.items.remove(i);
                assert(self@.items =~= v.items.remove(i as int));
                b.file
            },
            None => None,
        }
    }
}

proof fn lemma_absent(items: Seq<BaseView>, key: KeyView, from: int)
    requires
        0 <= from <= items.len(),
        place_of(items, key, from) is None,
    ensures
        forall|k: int| from <= k < items.len() ==> (#[trigger] items[k]).key != key,
    decreases items.len() - from,
{
    if from < items.len() {
        lemma_absent(items, key, from + 1);
    }
}

proof fn lemma_present(items: Seq<BaseView>, key: KeyView, from: int, k: int)
    requires
        0 <= from <= k < items.len(),
        items[k].key == key,
        forall|j: int| from <= j < k ==> (#[trigger] items[j]).key != key,
    ensures
        place_of(items, key, from) == Some(k),
    decreases k - from,
{
    if from < k {
        lemma_present(items, key, from + 1, k);
    }
}

/// Using a copy keeps the cache sound and changes nothing but the order.
pub proof fn using_a_copy_keeps_the_cache_sound(v: CacheView, i: int)
    requires
        v.wf(),
        0 <= i < v.items.len(),
    ensures
        v.used(i).wf(),
        v.used(i).items.len() == v.items.len(),
        v.used(i).items.last() == v.items[i],
{
    let w = v.used(i).items;
    let m = w.len() - 1;
    assert forall|a: int, b: int| 0 <= a < b < w.len() implies (#[trigger] w[a]).key != (
    #[trigger] w[b]).key by {
        let from_a = if a < i {
            a
        } else {
            a + 1
        };
        let from_b = if b == m {
            i
        } else if b < i {
            b
        } else {
            b + 1
        };
        assert(w[a] == v.items[from_a]);
        assert(w[b] == v.items[from_b]);
        assert(from_a != from_b);
        if from_a < from_b {
            assert(v.items[from_a].key != v.items[from_b].key);
        } else {
            assert(v.items[from_b].key != v.items[from_a].key);
        }
    }
}

/// A copy that was begun is found until it is discarded, and three other copies can be
/// begun before it has to go.
pub proof fn begun_copy_is_found(v: CacheView, key: KeyView, a: KeyView, b: KeyView, c: KeyView)
    requires
        v.wf(),
        place_of(v.items, key, 0) is None,
        a != key && b != key && c != key,
    ensures
        place_of(v.reserved(key).items, key, 0) is Some,
        place_of(v.reserved(key).reserved(a).reserved(b).reserved(c).items, key, 0) is Some,
{
    let one = v.reserved(key);
    lemma_absent(v.items, key, 0);
    lemma_present(one.items, key, 0, one.items.len() - 1);
    let two = one.reserved(a);
    let three = two.reserved(b);
    let four = three.reserved(c);
    assert(two.items.len() >= 2 && two.items[two.items.len() - 2].key == key);
    assert(three.items.len() >= 3 && three.items[three.items.len() - 3].key == key);
    assert(four.items.len() >= 4 && four.items[four.items.len() - 4].key == key);
    assert(four.items.len() == 4);
    lemma_present(four.items, key, 0, 0);
}

} // verus!
