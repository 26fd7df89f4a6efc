//! The editor: its photos, and everything that goes with them.

use crate::adjust::Adjustments;
use crate::caption::index_view;
use crate::captions::{
    no_captions, renumbered, renumbered_photo_is_the_same, Captions, CaptionsView,
};
use crate::conversion::{no_conversion, Conversion, ConversionView, StateView};
use crate::files::{has_ext, image_exts, is_image};
use crate::looks::{plain_looks, Looks, LooksView};
use crate::options::Resolution;
use crate::order::{
    is_natural_order, is_permutation, natural_order, natural_order_exists, natural_sort,
    naturally_sorted, permutation_hits, sorting_twice_changes_nothing,
};
use crate::preview::{no_preview, Preview, PreviewView};
use crate::settings::{first_settings, Settings, SettingsView};
use crate::sizes::{no_sizes, Sizes, SizesView};
use crate::style::{plain_style, SubtitleStyle};
use crate::text::{lower, lowercase, same, text_view, texts};
use vstd::hash_map::StringHashMap;
use vstd::hash_set::StringHashSet;
use vstd::prelude::*;

verus! {

/// How far the thumbnail of a photo is.
#[derive(Clone, Copy, PartialEq, Eq, Structural, Debug)]
pub enum Thumb {
    Loading,
    Ready,
    Failed,
}

/// A file that was picked or dropped: its absolute path and its name.
pub struct PickedFile {
    pub path: String,
    pub name: String,
}

/// What a picked file stands for.
pub struct PickedView {
    pub path: Seq<char>,
    pub name: Seq<char>,
}

impl View for PickedFile {
    type V = PickedView;

    open spec fn view(&self) -> PickedView {
        PickedView { path: self.path@, name: self.name@ }
    }
}

/// What a list of picked files stands for.
pub open spec fn picked_views(v: Seq<PickedFile>) -> Seq<PickedView> {
    v.map_values(|f: PickedFile| f@)
}

/// What the panels show.
#[derive(Clone, Copy, PartialEq, Eq, Structural, Debug)]
pub struct Panels {
    /// Whether the section on captions is open.
    pub text_open: bool,
    /// Whether the section on transitions and music is open.
    pub fx_open: bool,
    /// Whether the frame rate was changed and not yet saved.
    pub fps_unsaved: bool,
    /// Whether the last import brought no photo.
    pub import_found_nothing: bool,
}

/// The project files: those that were used last, newest first, and the one that was
/// opened or saved last.
pub struct ProjectNames {
    pub recent: Vec<String>,
    pub current: Option<String>,
}

/// What the names of project files stand for.
pub struct ProjectNamesView {
    pub recent: Seq<Seq<char>>,
    pub current: Option<Seq<char>>,
}

impl View for ProjectNames {
    type V = ProjectNamesView;

    open spec fn view(&self) -> ProjectNamesView {
        ProjectNamesView { recent: texts(self.recent@), current: text_view(self.current) }
    }
}

/// The editor. Photos are named by their absolute paths.
pub struct Editor {
    pub photos: Vec<String>,
    pub settings: Settings,
    pub looks: Looks,
    pub sizes: Sizes,
    pub captions: Captions,
    pub preview: Preview,
    pub thumbs: StringHashMap<Thumb>,
    pub job: Conversion,
    pub panels: Panels,
    pub projects: ProjectNames,
}

/// What the editor stands for.
pub struct EditorView {
    pub photos: Seq<Seq<char>>,
    pub settings: SettingsView,
    pub looks: LooksView,
    pub sizes: SizesView,
    pub captions: CaptionsView,
    pub preview: PreviewView,
    pub thumbs: Map<Seq<char>, Thumb>,
    pub job: ConversionView,
    pub panels: Panels,
    pub projects: ProjectNamesView,
}

impl View for Editor {
    type V = EditorView;

    open spec fn view(&self) -> EditorView {
        EditorView {
            photos: texts(self.photos@),
            settings: self.settings@,
            looks: self.looks@,
            sizes: self.sizes@,
            captions: self.captions@,
            preview: self.preview@,
            thumbs: self.thumbs@,
            job: self.job@,
            panels: self.panels,
            projects: self.projects@,
        }
    }
}

/// The editor when the program starts.
pub open spec fn first_state(
    saved_fps: Option<u32>,
    fonts: Seq<Seq<char>>,
    recent: Seq<Seq<char>>,
) -> EditorView {
    EditorView {
        photos: seq![],
        settings: first_settings(
            match saved_fps {
                Some(n) => n,
                None => 10,
            },
        ),
        looks: plain_looks(),
        sizes: no_sizes(),
        captions: no_captions(fonts),
        preview: no_preview(),
        thumbs: Map::empty(),
        job: no_conversion(),
        panels: Panels {
            text_open: true,
            fx_open: true,
            fps_unsaved: false,
            import_found_nothing: false,
        },
        projects: ProjectNamesView { recent, current: None },
    }
}

/// The paths of the picked files that are images, in order.
pub open spec fn image_paths(files: Seq<PickedView>) -> Seq<Seq<char>>
    decreases files.len(),
{
    if files.len() == 0 {
        seq![]
    } else if has_ext(files.last().name, image_exts()) {
        image_paths(files.drop_last()).push(files.last().path)
    } else {
        image_paths(files.drop_last())
    }
}

/// Whether the list holds the path, but for the case of letters.
pub open spec fn holds(photos: Seq<Seq<char>>, path: Seq<char>) -> bool {
    exists|i: int| 0 <= i < photos.len() && lowercase(#[trigger] photos[i]) == lowercase(path)
}

/// The list with the paths that it does not hold yet behind it.
pub open spec fn appended(photos: Seq<Seq<char>>, files: Seq<Seq<char>>) -> Seq<Seq<char>>
    decreases files.len(),
{
    if files.len() == 0 {
        photos
    } else {
        let head = appended(photos, files.drop_last());
        if holds(head, files.last()) {
            head
        } else {
            head.push(files.last())
        }
    }
}

/// The first place of `p` from `i` on.
pub open spec fn first_place(photos: Seq<Seq<char>>, p: Seq<char>, i: int) -> Option<int>
    decreases photos.len() - i,
{
    if i < 0 || i >= photos.len() {
        None
    } else if photos[i] == p {
        Some(i)
    } else {
        first_place(photos, p, i + 1)
    }
}

/// The list after photos were added: those that it did not hold, in natural order among
/// the others.
pub open spec fn merged(photos: Seq<Seq<char>>, images: Seq<Seq<char>>) -> Seq<Seq<char>> {
    naturally_sorted(appended(photos, images))
}

/// The place of the selected photo in the list with the added photos; the first place
/// where none was selected.
pub open spec fn selection_in(
    photos: Seq<Seq<char>>,
    images: Seq<Seq<char>>,
    selected: Option<int>,
) -> Option<int> {
    let moved = match selected {
        Some(i) => first_place(merged(photos, images), appended(photos, images)[i], 0),
        None => None,
    };
    if moved is None && merged(photos, images).len() > 0 {
        Some(0)
    } else {
        moved
    }
}

impl EditorView {
    /// What holds of every state: the preview shows a photo if there is one, the
    /// selected caption is there, and only photos of the list are selected or have
    /// adjustments of their own.
    pub open spec fn wf(self) -> bool {
        &&& self.preview.fits(self.photos.len() as int)
        &&& self.captions.wf()
        &&& self.looks.fits(self.photos)
    }

    /// An import that brought photos was noted: results of an earlier conversion no
    /// longer count.
    pub open spec fn import_noted(self, found: bool) -> EditorView {
        if found {
            EditorView {
                panels: Panels { import_found_nothing: false, ..self.panels },
                job: self.job.banner_cleared(),
                ..self
            }
        } else {
            self
        }
    }

    /// The photos are in the list; the preview and the captions follow theirs.
    pub open spec fn listing(self, images: Seq<Seq<char>>) -> EditorView {
        let all = merged(self.photos, images);
        let moved = PreviewView {
            selected: selection_in(self.photos, images, self.preview.selected),
            ..self.preview
        };
        EditorView {
            photos: all,
            sizes: SizesView { native: None, ..self.sizes },
            captions: self.captions.renumbering(self.photos, all),
            preview: if moved.selected is Some {
                moved.dirtied()
            } else {
                moved
            },
            ..self
        }
    }

    /// The images among the picked files were added.
    pub open spec fn adding(self, files: Seq<PickedView>) -> EditorView {
        let images = image_paths(files);
        self.import_noted(images.len() > 0).listing(images)
    }

    /// Photo `i` and all that was kept of it has gone.
    pub open spec fn removing(self, i: int) -> EditorView {
        let gone = self.photos[i];
        let rest = self.photos.remove(i);
        EditorView {
            photos: rest,
            looks: self.looks.after_removal(gone, rest),
            sizes: SizesView { native: None, known: self.sizes.known.remove(gone) },
            captions: self.captions.after_removal(i),
            preview: self.preview.after_removal(i, rest.len() as int),
            thumbs: self.thumbs.remove(gone),
            job: self.job.banner_cleared(),
            ..self
        }
    }

    /// All photos and all that was kept of them have gone.
    pub open spec fn cleared(self) -> EditorView {
        EditorView {
            photos: seq![],
            looks: self.looks.emptied(),
            sizes: no_sizes(),
            captions: self.captions.emptied(),
            preview: self.preview.emptied(),
            thumbs: Map::empty(),
            job: ConversionView { state: StateView::Idle, ..self.job },
            panels: Panels { import_found_nothing: false, ..self.panels },
            ..self
        }
    }

    /// A new project: no photos and the first settings, but for the frame rate.
    pub open spec fn renewed(self) -> EditorView {
        let empty = self.cleared();
        EditorView {
            settings: first_settings(self.settings.fps),
            looks: plain_looks(),
            captions: CaptionsView { style: plain_style(), ..empty.captions },
            projects: ProjectNamesView { current: None, ..self.projects },
            ..empty
        }
    }

    /// The size of the video.
    pub open spec fn output_size(self) -> Resolution {
        self.sizes.output_size(self.settings.resolution, self.photos)
    }

    /// The path of the photo in the preview.
    pub open spec fn shown_photo(self) -> Option<Seq<char>> {
        match self.preview.selected {
            Some(i) => if 0 <= i < self.photos.len() {
                Some(self.photos[i])
            } else {
                None
            },
            None => None,
        }
    }

    /// Whether a picture is to be rendered now: one at a time, with the newest settings.
    pub open spec fn render_due(self) -> bool {
        self.preview.dirty && !self.preview.rendering && self.shown_photo() is Some
    }

    /// Whether the neighbours of the shown photo are to be prepared now: when nothing
    /// else is to be done, once for each photo.
    pub open spec fn prefetch_due(self) -> bool {
        &&& !self.preview.dirty
        &&& !self.preview.rendering
        &&& !self.job.working()
        &&& self.preview.selected is Some
        &&& self.preview.prefetched != self.preview.selected
    }

    /// The photos in front of and behind the shown one.
    pub open spec fn neighbours(self) -> Seq<Seq<char>> {
        match self.preview.selected {
            Some(i) => {
                let before = if 0 < i <= self.photos.len() {
                    seq![self.photos[i - 1]]
                } else {
                    seq![]
                };
                if i + 1 < self.photos.len() {
                    before.push(self.photos[i + 1])
                } else {
                    before
                }
            },
            None => seq![],
        }
    }
}

/// A picture that is to be rendered.
pub struct RenderJob {
    pub photo: String,
    pub adj: Adjustments,
}

/// The first place of `p`.
pub(crate) fn find_first(photos: &Vec<String>, p: &String) -> (r: Option<usize>)
    ensures
        index_view(r) == first_place(texts(photos@), p@, 0),
{
    let ghost v = texts(photos@);
    let mut i: usize = 0;
    while i < photos.len()
        invariant
            i <= photos.len(),
            v == texts(photos@),
            first_place(v, p@, 0) == first_place(v, p@, i as int),
        decreases photos.len() - i,
    {
        assert(v[i as int] == photos[i as int]@);
        if photos[i] == *p {
            return Some(i);
        }
        i += 1;
    }
    None
}

pub(crate) proof fn lemma_first_place(photos: Seq<Seq<char>>, p: Seq<char>, from: int)
    requires
        0 <= from <= photos.len(),
    ensures
        first_place(photos, p, from) matches Some(i) ==> from <= i < photos.len() && photos[i] == p,
        first_place(photos, p, from) is None ==> forall|i: int|
            from <= i < photos.len() ==> photos[i] != p,
    decreases photos.len() - from,
{
    if from < photos.len() {
        lemma_first_place(photos, p, from + 1);
    }
}

proof fn lemma_appended(photos: Seq<Seq<char>>, files: Seq<Seq<char>>)
    ensures
        appended(photos, files).len() >= photos.len(),
        forall|k: int| 0 <= k < photos.len() ==> #[trigger] appended(photos, files)[k] == photos[k],
    decreases files.len(),
{
    if files.len() > 0 {
        lemma_appended(photos, files.drop_last());
    }
}

/// A sorted list holds what the list held.
proof fn lemma_sorted_holds_all(list: Seq<Seq<char>>)
    ensures
        naturally_sorted(list).len() == list.len(),
        forall|k: int|
            0 <= k < list.len() ==> naturally_sorted(list).contains(#[trigger] list[k]),
{
    natural_order_exists(list);
    let perm = natural_order(list);
    assert(is_natural_order(list, perm));
    assert(is_permutation(perm, list.len()));
    let out = naturally_sorted(list);
    assert forall|k: int| 0 <= k < list.len() implies out.contains(#[trigger] list[k]) by {
        let j = permutation_hits(perm, list.len(), k);
        assert(out[j] == list[k]);
    }
}

/// The photos of the list are still there after others were added.
proof fn lemma_merged(photos: Seq<Seq<char>>, images: Seq<Seq<char>>)
    ensures
        merged(photos, images).len() >= photos.len(),
        forall|k: int|
            0 <= k < photos.len() ==> merged(photos, images).contains(#[trigger] photos[k]),
        forall|p: Seq<char>| #[trigger] photos.contains(p) ==> merged(photos, images).contains(p),
{
    let all = appended(photos, images);
    lemma_appended(photos, images);
    lemma_sorted_holds_all(all);
    assert forall|k: int| 0 <= k < photos.len() implies merged(photos, images).contains(
        #[trigger] photos[k],
    ) by {
        assert(all[k] == photos[k]);
    }
}

pub(crate) fn clone_texts(v: &Vec<String>) -> (r: Vec<String>)
    ensures
        texts(r@) == texts(v@),
{
    let mut r: Vec<String> = Vec::new();
    let mut i: usize = 0;
    while i < v.len()
        invariant
            i <= v.len(),
            r.len() == i,
            forall|k: int| 0 <= k < i ==> (#[trigger] r[k])@ == v[k]@,
        decreases v.len() - i,
    {
        r.push(v[i].clone());
        i += 1;
    }
    assert(texts(r@) =~= texts(v@));
    r
}

/// The paths of the picked files that are images, in order.
fn pick_images(files: &Vec<PickedFile>) -> (r: Vec<String>)
    ensures
        texts(r@) == image_paths(picked_views(files@)),
{
    let ghost v = picked_views(files@);
    let mut r: Vec<String> = Vec::new();
    let mut i: usize = 0;
    assert(v.take(0) =~= seq![]);
    assert(texts(r@) =~= seq![]);
    while i < files.len()
        invariant
            i <= files.len(),
            v == picked_views(files@),
            texts(r@) == image_paths(v.take(i as int)),
        decreases files.len() - i,
    {
        assert(v[i as int] == files[i as int]@);
        assert(v.take(i + 1).drop_last() =~= v.take(i as int));
        assert(v.take(i + 1).last() == v[i as int]);
        let ghost before = r@;
        if is_image(files[i].name.as_str()) {
            r.push(files[i].path.clone());
            assert(texts(r@) =~= texts(before).push(v[i as int].path));
        }
        i += 1;
    }
    assert(v.take(v.len() as int) =~= v);
    r
}

/// The lower-case forms of the paths.
spec fn lowered(photos: Seq<Seq<char>>) -> Set<Seq<char>> {
    Set::new(
        |s: Seq<char>|
            exists|i: int| 0 <= i < photos.len() && lowercase(#[trigger] photos[i]) == s,
    )
}

proof fn lemma_lowered_push(photos: Seq<Seq<char>>, p: Seq<char>)
    ensures
        lowered(photos.push(p)) == lowered(photos).insert(lowercase(p)),
{
    let more = photos.push(p);
    assert forall|s: Seq<char>| lowered(more).contains(s) == lowered(photos).insert(
        lowercase(p),
    ).contains(s) by {
        if lowered(photos).contains(s) {
            let i = choose|i: int| 0 <= i < photos.len() && lowercase(#[trigger] photos[i]) == s;
            assert(lowercase(more[i]) == s);
        }
        if s == lowercase(p) {
            assert(lowercase(more[photos.len() as int]) == s);
        }
        if lowered(more).contains(s) {
            let i = choose|i: int| 0 <= i < more.len() && lowercase(#[trigger] more[i]) == s;
            if i < photos.len() {
                assert(lowercase(photos[i]) == s);
            }
        }
    }
    assert(lowered(more) =~= lowered(photos).insert(lowercase(p)));
}

/// Puts the paths that the list does not hold yet behind it.
fn append_new(photos: &mut Vec<String>, files: &Vec<String>)
    ensures
        texts(final(photos)@) == appended(texts(old(photos)@), texts(files@)),
{
    let ghost start = texts(photos@);
    let ghost f = texts(files@);
    let mut seen = StringHashSet::new();
    let mut i: usize = 0;
    assert(lowered(start.take(0)) =~= Set::empty());
    while i < photos.len()
        invariant
            i <= photos.len(),
            start == texts(photos@),
            *photos == *old(photos),
            seen@ == lowered(start.take(i as int)),
        decreases photos.len() - i,
    {
        assert(start[i as int] == photos[i as int]@);
        let _ = seen.insert(lower(photos[i].as_str()));
        assert(start.take(i + 1) =~= start.take(i as int).push(start[i as int]));
        proof {
            lemma_lowered_push(start.take(i as int), start[i as int]);
        }
        i += 1;
    }
    assert(start.take(start.len() as int) =~= start);
    let mut k: usize = 0;
    assert(f.take(0) =~= seq![]);
    while k < files.len()
        invariant
            k <= files.len(),
            f == texts(files@),
            texts(photos@) == appended(start, f.take(k as int)),
            seen@ == lowered(texts(photos@)),
        decreases files.len() - k,
    {
        assert(f[k as int] == files[k as int]@);
        assert(f.take(k + 1).drop_last() =~= f.take(k as int));
        assert(f.take(k + 1).last() == f[k as int]);
        let ghost head = texts(photos@);
        let fresh: bool = seen.insert(lower(files[k].as_str()));
        assert(fresh == !holds(head, f[k as int]));
        if fresh {
            proof {
                lemma_lowered_push(head, f[k as int]);
            }
            photos.push(files[k].clone());
            assert(texts(photos@) =~= head.push(f[k as int]));
        } else {
            assert(seen@ =~= lowered(head));
        }
        k += 1;
    }
    assert(f.take(f.len() as int) =~= f);
}

/// The list after photos were added, and the place of the selected photo in it.
fn merge_photos(photos: &Vec<String>, selected: Option<usize>, images: &Vec<String>) -> (r: (
    Vec<String>,
    Option<usize>,
))
    requires
        selected matches Some(i) ==> i < photos.len(),
    ensures
        texts(r.0@) == merged(texts(photos@), texts(images@)),
        index_view(r.1) == selection_in(texts(photos@), texts(images@), index_view(selected)),
{
    let mut list = clone_texts(photos);
    append_new(&mut list, images);
    let ghost all = texts(list@);
    proof {
        lemma_appended(texts(photos@), texts(images@));
    }
    let path: Option<String> = match selected {
        Some(i) => {
            assert(all[i as int] == list[i as int]@);
            Some(list[i].clone())
        },
        None => None,
    };
    natural_sort(&mut list);
    let mut place: Option<usize> = match &path {
        Some(p) => find_first(&list, p),
        None => None,
    };
    if place.is_none() && list.len() > 0 {
        place = Some(0);
    }
    (list, place)
}

impl Editor {
    /// The editor when the program starts.
    pub fn new(saved_fps: Option<u32>, fonts: Vec<String>, recent: Vec<String>) -> (r: Self)
        ensures
            r@ == first_state(saved_fps, texts(fonts@), texts(recent@)),
            r@.wf(),
    {
        let fps: u32 = match saved_fps {
            Some(n) => n,
            None => 10,
        };
        let r = Editor {
            photos: Vec::new(),
            settings: Settings::new(fps),
            looks: Looks::new(),
            sizes: Sizes::new(),
            captions: Captions::new(fonts),
            preview: Preview::new(),
            thumbs: StringHashMap::new(),
            job: Conversion::new(),
            panels: Panels {
                text_open: true,
                fx_open: true,
                fps_unsaved: false,
                import_found_nothing: false,
            },
            projects: ProjectNames { recent, current: None },
        };
        assert(r@.photos =~= seq![]);
        r
    }

    /// Adds the images among the picked files: each path once, in natural order among
    /// the photos that were there. The shown photo stays, and captions stay on their
    /// photos.
    pub fn add_photos(&mut self, files: &Vec<PickedFile>)
        requires
            old(self)@.wf(),
        ensures
            final(self)@ == old(self)@.adding(picked_views(files@)),
            final(self)@.wf(),
    {
        proof {
            adding_keeps_the_editor_sound(self@, picked_views(files@));
        }
        let images = pick_images(files);
        if images.len() > 0 {
            self.panels.import_found_nothing = false;
            self.job.clear_result_banner();
        }
        assert(self@ == old(self)@.import_noted(images@.len() > 0));
        let (photos, selected) = merge_photos(&self.photos, self.preview.selected, &images);
        self.captions.follow_photos(&self.photos, &photos);
        self.photos = photos;
        self.sizes.native = None;
        self.preview.selected = selected;
        if self.preview.selected.is_some() {
            self.preview.mark_dirty();
        }
    }

    /// Removes photo `i` and all that was kept of it. Captions move up with the photos
    /// behind it, and its neighbour is shown if it was in the preview.
    pub fn remove_photo(&mut self, i: usize)
        requires
            old(self)@.wf(),
            i < old(self)@.photos.len(),
        ensures
            final(self)@ == old(self)@.removing(i as int),
            final(self)@.wf(),
    {
        let ghost v = self@;
        proof {
            removing_keeps_the_editor_sound(v, i as int);
        }
        assert(v.photos[i as int] == self.photos[i as int]@);
        let count: usize = self.photos.len();
        assert(i < count);
        let removed = self.photos.remove(i);
        assert(texts(self.photos@) =~= v.photos.remove(i as int));
        self.thumbs.remove(removed.as_str());
        self.looks.follow_removal(removed.as_str(), &self.photos);
        self.job.clear_result_banner();
        self.sizes.forget(removed.as_str());
        self.captions.follow_removal(i);
        self.preview.follow_removal(i, self.photos.len());
    }

    /// Removes all photos and all that was kept of them, and the thumbnails that are
    /// still to be made.
    pub fn clear_photos(&mut self, jobs: &mut Vec<String>)
        ensures
            final(self)@ == old(self)@.cleared(),
            final(self)@.wf(),
            final(jobs)@.len() == 0,
    {
        self.photos = Vec::new();
        assert(texts(self.photos@) =~= seq![]);
        self.thumbs.clear();
        self.looks.clear();
        self.captions.clear();
        self.sizes.clear();
        *jobs = Vec::new();
        self.preview.clear();
        self.panels.import_found_nothing = false;
        self.job.state = crate::conversion::ConvertState::Idle;
    }

    /// Starts a new project: no photos and the first settings. The frame rate stays.
    pub fn new_project(&mut self, jobs: &mut Vec<String>)
        ensures
            final(self)@ == old(self)@.renewed(),
            final(self)@.wf(),
            final(jobs)@.len() == 0,
    {
        self.clear_photos(jobs);
        self.settings = Settings::new(self.settings.fps);
        self.looks = Looks::new();
        self.captions.style = SubtitleStyle::default();
        self.projects.current = None;
    }

    /// The size of the video. With the size of the photos as its size it is large
    /// enough for each of them, and even; it is worked out once.
    pub fn resolved_resolution(&mut self) -> (r: Resolution)
        ensures
            r == old(self)@.output_size(),
            final(self)@ == (EditorView {
                sizes: SizesView {
                    native: if old(self)@.settings.resolution.w == 0 {
                        Some(r)
                    } else {
                        old(self)@.sizes.native
                    },
                    ..old(self)@.sizes
                },
                ..old(self)@
            }),
    {
        self.sizes.resolve(self.settings.resolution, &self.photos)
    }

    /// A picture of `photo` was rendered, or failed; says whether it is to be shown.
    pub fn on_rendered(&mut self, photo: &str, error: Option<String>) -> (r: bool)
        ensures
            final(self)@ == (EditorView {
                preview: old(self)@.preview.rendered(
                    old(self)@.shown_photo() == Some(photo@),
                    text_view(error),
                ),
                ..old(self)@
            }),
            r == (old(self)@.shown_photo() == Some(photo@) && error is None),
    {
        let shown: bool = match self.preview.selected {
            Some(i) => i < self.photos.len() && same(self.photos[i].as_str(), photo),
            None => false,
        };
        assert(shown == (self@.shown_photo() == Some(photo@)));
        self.preview.on_rendered(shown, error)
    }

    /// The picture that is to be rendered now, if any: one at a time, with the newest
    /// settings.
    pub fn next_render(&mut self) -> (r: Option<RenderJob>)
        ensures
            r is Some <==> old(self)@.render_due(),
            match r {
                Some(job) => {
                    &&& old(self)@.shown_photo() == Some(job.photo@)
                    &&& job.adj == old(self)@.looks.effective(job.photo@)
                    &&& final(self)@ == (EditorView {
                        preview: old(self)@.preview.render_begun(),
                        ..old(self)@
                    })
                },
                None => final(self)@ == old(self)@,
            },
    {
        if !self.preview.dirty || self.preview.rendering {
            return None;
        }
        let photo: String = match self.preview.selected {
            Some(i) => {
                if i >= self.photos.len() {
                    return None;
                }
                assert(self@.photos[i as int] == self.photos[i as int]@);
                self.photos[i].clone()
            },
            None => {
                return None;
            },
        };
        let adj = self.looks.effective_adj(photo.as_str());
        self.preview.begin_render();
        Some(RenderJob { photo, adj })
    }

    /// The photos that are to be prepared now, if any: the neighbours of the shown one.
    pub fn next_prefetch(&mut self) -> (r: Vec<String>)
        requires
            old(self)@.wf(),
        ensures
            texts(r@) == (if old(self)@.prefetch_due() {
                old(self)@.neighbours()
            } else {
                seq![]
            }),
            final(self)@ == (if old(self)@.prefetch_due() {
                EditorView {
                    preview: PreviewView {
                        prefetched: old(self)@.preview.selected,
                        ..old(self)@.preview
                    },
                    ..old(self)@
                }
            } else {
                old(self)@
            }),
    {
        let ghost v = self@;
        let mut r: Vec<String> = Vec::new();
        assert(texts(r@) =~= seq![]);
        if self.preview.dirty || self.preview.rendering || self.job.is_working() {
            return r;
        }
        let i: usize = match self.preview.selected {
            Some(i) => i,
            None => {
                return r;
            },
        };
        match self.preview.prefetched {
            Some(j) => {
                if j == i {
                    return r;
                }
            },
            None => {},
        }
        self.preview.prefetched = Some(i);
        if i > 0 {
            assert(v.photos[i - 1] == self.photos[i - 1]@);
            r.push(self.photos[i - 1].clone());
        }
        if i < self.photos.len() && i + 1 < self.photos.len() {
            assert(v.photos[i + 1] == self.photos[i + 1]@);
            r.push(self.photos[i + 1].clone());
        }
        assert(texts(r@) =~= v.neighbours());
        r
    }
}

/// Adding photos keeps the editor sound.
pub proof fn adding_keeps_the_editor_sound(v: EditorView, files: Seq<PickedView>)
    requires
        v.wf(),
    ensures
        v.adding(files).wf(),
{
    let images = image_paths(files);
    let all = merged(v.photos, images);
    lemma_merged(v.photos, images);
    lemma_appended(v.photos, images);
    match v.preview.selected {
        Some(i) => {
            assert(all.contains(v.photos[i]));
            lemma_first_place(all, appended(v.photos, images)[i], 0);
        },
        None => {},
    }
    assert(v.adding(files).captions.entries.len() == v.captions.entries.len());
}

proof fn lemma_remaining(photos: Seq<Seq<char>>, i: int)
    requires
        0 <= i < photos.len(),
    ensures
        forall|p: Seq<char>|
            p != photos[i] && #[trigger] photos.contains(p) ==> photos.remove(i).contains(p),
{
    assert forall|p: Seq<char>| p != photos[i] && #[trigger] photos.contains(p) implies photos.remove(
        i,
    ).contains(p) by {
        let k = choose|k: int| 0 <= k < photos.len() && photos[k] == p;
        if k < i {
            assert(photos.remove(i)[k] == p);
        } else {
            assert(photos.remove(i)[k - 1] == p);
        }
    }
}

/// Removing a photo keeps the editor sound.
pub proof fn removing_keeps_the_editor_sound(v: EditorView, i: int)
    requires
        v.wf(),
        0 <= i < v.photos.len(),
    ensures
        v.removing(i).wf(),
{
    lemma_remaining(v.photos, i);
    crate::caption::lemma_selection_after(v.captions.entries, i + 1, v.captions.selected);
}

/// The photo in the preview stays in the preview when photos are added.
pub proof fn added_photos_leave_the_preview(v: EditorView, files: Seq<PickedView>)
    requires
        v.wf(),
        v.photos.len() > 0,
    ensures
        v.adding(files).shown_photo() == v.shown_photo(),
{
    let images = image_paths(files);
    let all = merged(v.photos, images);
    let i = v.preview.selected.unwrap();
    lemma_merged(v.photos, images);
    lemma_appended(v.photos, images);
    assert(all.contains(v.photos[i]));
    lemma_first_place(all, appended(v.photos, images)[i], 0);
}

/// The photo in the preview stays in the preview when another photo is removed.
pub proof fn removing_another_leaves_the_preview(v: EditorView, i: int)
    requires
        v.wf(),
        0 <= i < v.photos.len(),
        v.preview.selected != Some(i),
    ensures
        v.removing(i).shown_photo() == v.shown_photo(),
{
}

/// Captions stay on their photos when photos are added.
pub proof fn added_photos_leave_the_captions(v: EditorView, files: Seq<PickedView>, k: int)
    requires
        0 <= k < v.captions.entries.len(),
    ensures
        v.adding(files).captions.entries.len() == v.captions.entries.len(),
        1 <= v.captions.entries[k].start <= v.photos.len() ==> {
            let start = v.adding(files).captions.entries[k].start;
            &&& 1 <= start <= v.adding(files).photos.len()
            &&& v.adding(files).photos[start - 1] == v.photos[v.captions.entries[k].start - 1]
        },
        1 <= v.captions.entries[k].end <= v.photos.len() ==> {
            let end = v.adding(files).captions.entries[k].end;
            &&& 1 <= end <= v.adding(files).photos.len()
            &&& v.adding(files).photos[end - 1] == v.photos[v.captions.entries[k].end - 1]
        },
{
    let images = image_paths(files);
    let all = merged(v.photos, images);
    let e = v.captions.entries[k];
    lemma_merged(v.photos, images);
    if 1 <= e.start <= v.photos.len() {
        assert(all.contains(v.photos[e.start - 1]));
        renumbered_photo_is_the_same(v.photos, all, e.start);
    }
    if 1 <= e.end <= v.photos.len() {
        assert(all.contains(v.photos[e.end - 1]));
        renumbered_photo_is_the_same(v.photos, all, e.end);
    }
    assert(v.adding(files).captions.entries[k].start == renumbered(v.photos, all, e.start));
    assert(v.adding(files).captions.entries[k].end == renumbered(v.photos, all, e.end));
}

/// The list has no path twice, but for the case of letters.
pub open spec fn no_path_twice(photos: Seq<Seq<char>>) -> bool {
    forall|a: int, b: int|
        0 <= a < b < photos.len() ==> lowercase(#[trigger] photos[a]) != lowercase(
            #[trigger] photos[b],
        )
}

proof fn lemma_appended_distinct(photos: Seq<Seq<char>>, files: Seq<Seq<char>>)
    requires
        no_path_twice(photos),
    ensures
        no_path_twice(appended(photos, files)),
    decreases files.len(),
{
    if files.len() > 0 {
        lemma_appended_distinct(photos, files.drop_last());
    }
}

/// Adding photos brings no path into the list twice, and the new list is in natural
/// order.
pub proof fn added_photos_come_once(v: EditorView, files: Seq<PickedView>)
    requires
        no_path_twice(v.photos),
    ensures
        no_path_twice(v.adding(files).photos),
        naturally_sorted(v.adding(files).photos) == v.adding(files).photos,
{
    let all = appended(v.photos, image_paths(files));
    lemma_appended_distinct(v.photos, image_paths(files));
    natural_order_exists(all);
    let perm = natural_order(all);
    assert(is_permutation(perm, all.len()));
    let sorted = naturally_sorted(all);
    assert forall|a: int, b: int| 0 <= a < b < sorted.len() implies lowercase(#[trigger] sorted[a])
        != lowercase(#[trigger] sorted[b]) by {
        assert(sorted[a] == all[perm[a]]);
        assert(sorted[b] == all[perm[b]]);
        assert(perm[a] != perm[b]);
    }
    sorting_twice_changes_nothing(all);
}

} // verus!
