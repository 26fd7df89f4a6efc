//! What the user does with the photos: selecting and adjusting them, writing captions on
//! them, importing and removing them.

use crate::adjust::Adjustments;
use crate::editor::{picked_views, Editor, EditorView, Panels, PickedFile, PickedView};
use crate::files::{
    audio_exts, has_ext, image_exts, is_audio, is_image, is_project_file, project_ext,
};
use crate::looks::selecting_keeps_to_the_list;
use crate::options::{OutputFormat, Resolution};
use crate::preview::steps_stay_among_the_photos;
use crate::settings::SettingsView;
use crate::text::text_view;
use vstd::prelude::*;

verus! {

impl EditorView {
    /// A click on photo `i`: it is shown, and no photo is selected for adjustments.
    pub open spec fn clicking(self, i: int) -> EditorView {
        EditorView {
            looks: self.looks.unselected(),
            preview: self.preview.selecting(Some(i)),
            ..self
        }
    }

    /// A click on photo `i` with the control key: it is shown, and joins or leaves the
    /// selection.
    pub open spec fn toggling(self, i: int) -> EditorView {
        EditorView {
            looks: self.looks.toggled(self.photos[i]).synced(self.photos),
            preview: self.preview.selecting(Some(i)),
            ..self
        }
    }

    /// A click on photo `i` with the shift key: it is shown, and all photos from the one
    /// that was shown to it join the selection.
    pub open spec fn ranging(self, i: int) -> EditorView {
        let from = match self.preview.selected {
            Some(s) => s,
            None => i,
        };
        let lo = if from < i {
            from
        } else {
            i
        };
        let hi = if from < i {
            i
        } else {
            from
        };
        EditorView {
            looks: self.looks.selecting_between(self.photos, lo, hi).synced(self.photos),
            preview: self.preview.selecting(Some(i)),
            ..self
        }
    }

    /// The sliders went to `work`.
    pub open spec fn adjusting(self, work: Adjustments, reset: bool) -> EditorView {
        EditorView {
            looks: self.looks.adjusted(work, reset),
            preview: self.preview.dirtied(),
            ..self
        }
    }

    /// The selected photos follow the adjustments of all photos again.
    pub open spec fn unpinning(self) -> EditorView {
        EditorView {
            looks: self.looks.unpinned(self.photos),
            preview: self.preview.dirtied(),
            ..self
        }
    }

    /// A new caption from the shown photo to the last one, in the open section.
    pub open spec fn with_new_text(self) -> EditorView {
        let start = match self.preview.selected {
            Some(i) => i + 1,
            None => 1,
        };
        let end = if self.photos.len() > 0 {
            self.photos.len() as int
        } else {
            1
        };
        EditorView {
            captions: self.captions.with_new(start, end),
            panels: Panels { text_open: true, ..self.panels },
            ..self
        }
    }

    /// Other settings for the video.
    pub open spec fn with_output(
        self,
        fps: u32,
        format: OutputFormat,
        resolution: Resolution,
    ) -> EditorView {
        EditorView {
            settings: SettingsView { fps, format, resolution, ..self.settings },
            panels: Panels {
                fps_unsaved: self.panels.fps_unsaved || fps != self.settings.fps,
                ..self.panels
            },
            preview: if resolution != self.settings.resolution {
                self.preview.dirtied()
            } else {
                self.preview
            },
            ..self
        }
    }

    /// It is told that an import brought no photo.
    pub open spec fn telling(self, nothing: bool) -> EditorView {
        EditorView {
            panels: Panels {
                import_found_nothing: self.panels.import_found_nothing || nothing,
                ..self.panels
            },
            ..self
        }
    }

    /// Photos were picked by name: if there is none among them, that is told.
    pub open spec fn picking(self, files: Seq<PickedView>) -> EditorView {
        self.telling(files.len() > 0 && !any_image(files)).adding(files)
    }

    /// A folder was picked: whether there is a photo in it is told.
    pub open spec fn picking_folder(self, files: Seq<PickedView>) -> EditorView {
        (EditorView {
            panels: Panels { import_found_nothing: files.len() == 0, ..self.panels },
            ..self
        }).adding(files)
    }

    /// Dropped music is set, and the section that tells of it is open.
    pub open spec fn with_music(self, music: Option<Seq<char>>) -> EditorView {
        match music {
            Some(m) => EditorView {
                settings: SettingsView { music_path: Some(m), ..self.settings },
                panels: Panels { fx_open: true, ..self.panels },
                ..self
            },
            None => self,
        }
    }

    /// Photos and music were dropped on the window.
    pub open spec fn dropping_in(self, items: Seq<DroppedView>) -> EditorView {
        let photos = dropped_photos(items);
        self.with_music(dropped_music(items)).telling(
            photos.len() == 0 && may_disappoint(items),
        ).adding(photos)
    }
}

/// Whether one of the files is an image.
pub open spec fn any_image(files: Seq<PickedView>) -> bool {
    exists|k: int| 0 <= k < files.len() && has_ext((#[trigger] files[k]).name, image_exts())
}

/// Whether one of the files is an image.
fn some_image(files: &Vec<PickedFile>) -> (r: bool)
    ensures
        r == any_image(picked_views(files@)),
{
    let ghost v = picked_views(files@);
    let mut i: usize = 0;
    while i < files.len()
        invariant
            i <= files.len(),
            v == picked_views(files@),
            forall|k: int| 0 <= k < i ==> !has_ext((#[trigger] v[k]).name, image_exts()),
        decreases files.len() - i,
    {
        assert(v[i as int] == files[i as int]@);
        if is_image(files[i].name.as_str()) {
            return true;
        }
        i += 1;
    }
    false
}

/// A file of a folder: a plain file or something else.
pub struct FolderItem {
    pub file: PickedFile,
    pub is_file: bool,
}

/// What a file of a folder stands for.
pub struct FolderItemView {
    pub file: PickedView,
    pub is_file: bool,
}

impl View for FolderItem {
    type V = FolderItemView;

    open spec fn view(&self) -> FolderItemView {
        FolderItemView { file: self.file@, is_file: self.is_file }
    }
}

/// What the files of a folder stand for.
pub open spec fn folder_views(v: Seq<FolderItem>) -> Seq<FolderItemView> {
    v.map_values(|f: FolderItem| f@)
}

/// The images among the files of a folder, in order.
pub open spec fn folder_images(items: Seq<FolderItemView>) -> Seq<PickedView>
    decreases items.len(),
{
    if items.len() == 0 {
        seq![]
    } else if items.last().is_file && has_ext(items.last().file.name, image_exts()) {
        folder_images(items.drop_last()).push(items.last().file)
    } else {
        folder_images(items.drop_last())
    }
}

fn clone_file(f: &PickedFile) -> (r: PickedFile)
    ensures
        r@ == f@,
{
    PickedFile { path: f.path.clone(), name: f.name.clone() }
}

/// The images among the files of a folder, in order.
pub fn collect_images(items: &Vec<FolderItem>) -> (r: Vec<PickedFile>)
    ensures
        picked_views(r@) == folder_images(folder_views(items@)),
{
    let ghost v = folder_views(items@);
    let mut r: Vec<PickedFile> = Vec::new();
    let mut i: usize = 0;
    assert(v.take(0) =~= seq![]);
    assert(picked_views(r@) =~= seq![]);
    while i < items.len()
        invariant
            i <= items.len(),
            v == folder_views(items@),
            picked_views(r@) == folder_images(v.take(i as int)),
        decreases items.len() - i,
    {
        assert(v[i as int] == items[i as int]@);
        assert(v.take(i + 1).drop_last() =~= v.take(i as int));
        assert(v.take(i + 1).last() == v[i as int]);
        let ghost before = r@;
        if items[i].is_file && is_image(items[i].file.name.as_str()) {
            let f = clone_file(&items[i].file);
            r.push(f);
            assert(picked_views(r@) =~= picked_views(before).push(f@));
        }
        i += 1;
    }
    assert(v.take(v.len() as int) =~= v);
    r
}

/// Something that was dropped on the window; of a folder also the images in it.
pub struct DroppedItem {
    pub file: PickedFile,
    pub is_dir: bool,
    pub inside: Vec<PickedFile>,
}

/// What a dropped thing stands for.
pub struct DroppedView {
    pub file: PickedView,
    pub is_dir: bool,
    pub inside: Seq<PickedView>,
}

impl View for DroppedItem {
    type V = DroppedView;

    open spec fn view(&self) -> DroppedView {
        DroppedView {
            file: self.file@,
            is_dir: self.is_dir,
            inside: picked_views(self.inside@),
        }
    }
}

/// What a list of dropped things stands for.
pub open spec fn dropped_views(v: Seq<DroppedItem>) -> Seq<DroppedView> {
    v.map_values(|d: DroppedItem| d@)
}

impl DroppedView {
    pub open spec fn is_music(self) -> bool {
        !self.is_dir && has_ext(self.file.name, audio_exts())
    }

    pub open spec fn is_photo(self) -> bool {
        !self.is_dir && !self.is_music() && has_ext(self.file.name, image_exts())
    }
}

/// The first project file from place `i` on.
pub open spec fn project_among(items: Seq<PickedView>, i: int) -> Option<Seq<char>>
    decreases items.len() - i,
{
    if i < 0 || i >= items.len() {
        None
    } else if has_ext(items[i].name, seq![project_ext()]) {
        Some(items[i].path)
    } else {
        project_among(items, i + 1)
    }
}

/// The files of the dropped things, without the contents of folders.
pub open spec fn dropped_files(items: Seq<DroppedView>) -> Seq<PickedView> {
    items.map_values(|d: DroppedView| d.file)
}

/// The photos among the dropped things, those in dropped folders too.
pub open spec fn dropped_photos(items: Seq<DroppedView>) -> Seq<PickedView>
    decreases items.len(),
{
    if items.len() == 0 {
        seq![]
    } else {
        let head = dropped_photos(items.drop_last());
        let d = items.last();
        if d.is_dir {
            head + d.inside
        } else if d.is_photo() {
            head.push(d.file)
        } else {
            head
        }
    }
}

/// The last piece of music among the dropped things.
pub open spec fn dropped_music(items: Seq<DroppedView>) -> Option<Seq<char>>
    decreases items.len(),
{
    if items.len() == 0 {
        None
    } else if items.last().is_music() {
        Some(items.last().file.path)
    } else {
        dropped_music(items.drop_last())
    }
}

/// Whether one of the dropped things should have brought photos and may not have: a
/// folder, or a file that is neither a photo nor music.
pub open spec fn may_disappoint(items: Seq<DroppedView>) -> bool {
    exists|k: int|
        0 <= k < items.len() && !(#[trigger] items[k]).is_photo() && !items[k].is_music()
}

/// The path of the first project file.
pub fn find_project(files: &Vec<PickedFile>) -> (r: Option<String>)
    ensures
        text_view(r) == project_among(picked_views(files@), 0),
{
    let ghost v = picked_views(files@);
    let mut i: usize = 0;
    while i < files.len()
        invariant
            i <= files.len(),
            v == picked_views(files@),
            project_among(v, 0) == project_among(v, i as int),
        decreases files.len() - i,
    {
        assert(v[i as int] == files[i as int]@);
        if is_project_file(files[i].name.as_str()) {
            return Some(files[i].path.clone());
        }
        i += 1;
    }
    None
}

/// What dropped things bring.
struct Sorted {
    photos: Vec<PickedFile>,
    music: Option<String>,
    disappointing: bool,
}

fn append_files(to: &mut Vec<PickedFile>, from: &Vec<PickedFile>)
    ensures
        picked_views(final(to)@) == picked_views(old(to)@) + picked_views(from@),
{
    let mut i: usize = 0;
    let ghost start = picked_views(to@);
    let ghost v = picked_views(from@);
    assert(v.take(0) =~= seq![]);
    assert(start + v.take(0) =~= start);
    while i < from.len()
        invariant
            i <= from.len(),
            v == picked_views(from@),
            picked_views(to@) == start + v.take(i as int),
        decreases from.len() - i,
    {
        let f = clone_file(&from[i]);
        let ghost before = to@;
        to.push(f);
        assert(picked_views(to@) =~= picked_views(before).push(f@));
        assert(v.take(i + 1) =~= v.take(i as int).push(v[i as int]));
        assert(start + v.take(i + 1) =~= (start + v.take(i as int)).push(v[i as int]));
        i += 1;
    }
    assert(v.take(v.len() as int) =~= v);
}

fn sort_dropped(items: &Vec<DroppedItem>) -> (r: Sorted)
    ensures
        picked_views(r.photos@) == dropped_photos(dropped_views(items@)),
        text_view(r.music) == dropped_music(dropped_views(items@)),
        r.disappointing == may_disappoint(dropped_views(items@)),
{
    let ghost v = dropped_views(items@);
    let mut photos: Vec<PickedFile> = Vec::new();
    let mut music: Option<String> = None;
    let mut disappointing: bool = false;
    let mut i: usize = 0;
    assert(v.take(0) =~= seq![]);
    assert(picked_views(photos@) =~= seq![]);
    while i < items.len()
        invariant
            i <= items.len(),
            v == dropped_views(items@),
            picked_views(photos@) == dropped_photos(v.take(i as int)),
            text_view(music) == dropped_music(v.take(i as int)),
            disappointing == (exists|k: int|
                0 <= k < i && !(#[trigger] v[k]).is_photo() && !v[k].is_music()),
        decreases items.len() - i,
    {
        assert(v[i as int] == items[i as int]@);
        assert(v.take(i + 1).drop_last() =~= v.take(i as int));
        assert(v.take(i + 1).last() == v[i as int]);
        let item = &items[i];
        if item.is_dir {
            disappointing = true;
            append_files(&mut photos, &item.inside);
        } else if is_audio(item.file.name.as_str()) {
            music = Some(item.file.path.clone());
        } else if is_image(item.file.name.as_str()) {
            let f = clone_file(&item.file);
            let ghost before = photos@;
            photos.push(f);
            assert(picked_views(photos@) =~= picked_views(before).push(f@));
        } else {
            disappointing = true;
        }
        i += 1;
    }
    assert(v.take(v.len() as int) =~= v);
    Sorted { photos, music, disappointing }
}

fn files_of(items: &Vec<DroppedItem>) -> (r: Vec<PickedFile>)
    ensures
        picked_views(r@) == dropped_files(dropped_views(items@)),
{
    let mut r: Vec<PickedFile> = Vec::new();
    let mut i: usize = 0;
    while i < items.len()
        invariant
            i <= items.len(),
            r.len() == i,
            forall|k: int| 0 <= k < i ==> (#[trigger] r[k])@ == items[k].file@,
        decreases items.len() - i,
    {
        r.push(clone_file(&items[i].file));
        i += 1;
    }
    assert(picked_views(r@) =~= dropped_files(dropped_views(items@)));
    r
}

impl Editor {
    /// A click on photo `i`: it is shown, and no photo is selected for adjustments.
    pub fn click_photo(&mut self, i: usize)
        requires
            old(self)@.wf(),
            i < old(self)@.photos.len(),
        ensures
            final(self)@ == old(self)@.clicking(i as int),
            final(self)@.wf(),
    {
        self.looks.unselect();
        self.preview.select(Some(i));
    }

    /// A click on photo `i` with the control key: it is shown, and joins or leaves the
    /// selection.
    pub fn toggle_photo(&mut self, i: usize)
        requires
            old(self)@.wf(),
            i < old(self)@.photos.len(),
        ensures
            final(self)@ == old(self)@.toggling(i as int),
            final(self)@.wf(),
    {
        assert(self@.photos[i as int] == self.photos[i as int]@);
        proof {
            selecting_keeps_to_the_list(self@.looks, self@.photos, i as int, i as int, i as int);
        }
        self.looks.toggle(self.photos[i].as_str());
        self.preview.select(Some(i));
        self.looks.sync_sel_adj(&self.photos);
    }

    /// A click on photo `i` with the shift key: it is shown, and all photos from the one
    /// that was shown to it join the selection.
    pub fn range_to_photo(&mut self, i: usize)
        requires
            old(self)@.wf(),
            i < old(self)@.photos.len(),
        ensures
            final(self)@ == old(self)@.ranging(i as int),
            final(self)@.wf(),
    {
        let from: usize = match self.preview.selected {
            Some(s) => s,
            None => i,
        };
        let lo: usize = if from < i {
            from
        } else {
            i
        };
        let hi: usize = if from < i {
            i
        } else {
            from
        };
        proof {
            selecting_keeps_to_the_list(self@.looks, self@.photos, i as int, lo as int, hi as int);
        }
        self.looks.select_between(&self.photos, lo, hi);
        self.preview.select(Some(i));
        self.looks.sync_sel_adj(&self.photos);
    }

    /// A click on photo `i`, with the control key or the shift key held or neither.
    pub fn thumb_clicked(&mut self, i: usize, ctrl: bool, shift: bool)
        requires
            old(self)@.wf(),
            i < old(self)@.photos.len(),
        ensures
            final(self)@ == (if ctrl {
                old(self)@.toggling(i as int)
            } else if shift {
                old(self)@.ranging(i as int)
            } else {
                old(self)@.clicking(i as int)
            }),
            final(self)@.wf(),
    {
        if ctrl {
            self.toggle_photo(i);
        } else if shift {
            self.range_to_photo(i);
        } else {
            self.click_photo(i);
        }
    }

    /// Shows the photo in front of the shown one, if there is one.
    pub fn step_back(&mut self)
        requires
            old(self)@.wf(),
        ensures
            final(self)@ == (EditorView {
                preview: old(self)@.preview.stepping_back(),
                ..old(self)@
            }),
            final(self)@.wf(),
    {
        self.preview.step_back();
    }

    /// Shows the photo behind the shown one, if there is one.
    pub fn step_on(&mut self)
        requires
            old(self)@.wf(),
        ensures
            final(self)@ == (EditorView {
                preview: old(self)@.preview.stepping_on(old(self)@.photos.len() as int),
                ..old(self)@
            }),
            final(self)@.wf(),
    {
        self.preview.step_on(self.photos.len());
    }

    /// The arrow keys show a neighbour of the photo that is shown.
    pub fn arrow_keys(&mut self, left: bool, right: bool)
        requires
            old(self)@.wf(),
        ensures
            final(self)@ == (EditorView {
                preview: old(self)@.preview.arrows(left, right, old(self)@.photos.len() as int),
                ..old(self)@
            }),
            final(self)@.wf(),
    {
        proof {
            steps_stay_among_the_photos(
                self@.preview,
                left,
                right,
                self@.photos.len() as int,
            );
        }
        self.preview.arrow_keys(left, right, self.photos.len());
    }

    /// The sliders went to `work`: all photos follow, or the selected ones only. A photo
    /// with adjustments of its own keeps what was not changed, except after a reset.
    pub fn apply_adjustments(&mut self, work: Adjustments, reset: bool)
        requires
            old(self)@.wf(),
        ensures
            final(self)@ == old(self)@.adjusting(work, reset),
            final(self)@.wf(),
    {
        self.looks.apply(&self.photos, work, reset);
        self.preview.mark_dirty();
    }

    /// The selected photos follow the adjustments of all photos again.
    pub fn unpin_adjustments(&mut self)
        requires
            old(self)@.wf(),
        ensures
            final(self)@ == old(self)@.unpinning(),
            final(self)@.wf(),
    {
        self.looks.unpin(&self.photos);
        self.preview.mark_dirty();
    }

    /// Adds a caption from the shown photo to the last one and selects it.
    pub fn add_text(&mut self)
        requires
            old(self)@.wf(),
        ensures
            final(self)@ == old(self)@.with_new_text(),
            final(self)@.wf(),
    {
        let n: usize = self.photos.len();
        let start: usize = match self.preview.selected {
            Some(i) => i + 1,
            None => 1,
        };
        let end: usize = if n > 0 {
            n
        } else {
            1
        };
        self.captions.add_text(start, end);
        self.panels.text_open = true;
    }

    /// Other settings for the video. The preview follows the size, and another frame rate
    /// is to be saved.
    pub fn set_output(&mut self, fps: u32, format: OutputFormat, resolution: Resolution)
        ensures
            final(self)@ == old(self)@.with_output(fps, format, resolution),
            old(self)@.wf() ==> final(self)@.wf(),
    {
        if resolution != self.settings.resolution {
            self.preview.mark_dirty();
        }
        self.panels.fps_unsaved = self.panels.fps_unsaved || fps != self.settings.fps;
        self.settings.fps = fps;
        self.settings.format = format;
        self.settings.resolution = resolution;
    }

    /// Whether the conversion can start.
    pub fn can_convert(&self) -> (r: bool)
        ensures
            r == (self@.photos.len() > 0 && !self@.job.working()),
    {
        self.photos.len() > 0 && !self.job.is_working()
    }

    /// Whether the keys for saving a project do anything: not without photos, nor while a
    /// conversion is running.
    pub fn can_save(&self) -> (r: bool)
        ensures
            r == (self@.photos.len() > 0 && !self@.job.working()),
    {
        self.photos.len() > 0 && !self.job.is_working()
    }

    /// Tells that an import brought no photo.
    fn tell_import(&mut self, nothing: bool)
        ensures
            final(self)@ == old(self)@.telling(nothing),
    {
        if nothing {
            self.panels.import_found_nothing = true;
        }
    }

    /// Photos were picked by name: if there is none among them, that is told.
    pub fn pick_files(&mut self, files: &Vec<PickedFile>)
        requires
            old(self)@.wf(),
        ensures
            final(self)@ == old(self)@.picking(picked_views(files@)),
            final(self)@.wf(),
    {
        let nothing: bool = files.len() > 0 && !some_image(files);
        self.tell_import(nothing);
        self.add_photos(files);
    }

    /// A folder was picked: whether there is a photo in it is told.
    pub fn pick_folder(&mut self, files: &Vec<PickedFile>)
        requires
            old(self)@.wf(),
        ensures
            final(self)@ == old(self)@.picking_folder(picked_views(files@)),
            final(self)@.wf(),
    {
        self.panels.import_found_nothing = files.len() == 0;
        self.add_photos(files);
    }

    /// Sets dropped music and shows the section that tells of it.
    fn take_music(&mut self, music: Option<String>)
        ensures
            final(self)@ == old(self)@.with_music(text_view(music)),
    {
        match music {
            Some(m) => {
                self.settings.music_path = Some(m);
                self.panels.fx_open = true;
            },
            None => {},
        }
    }

    /// Things were dropped on the window. A project file among them is to be opened, and
    /// nothing else is done; otherwise photos are added and music is set.
    pub fn drop_items(&mut self, items: &Vec<DroppedItem>) -> (r: Option<String>)
        requires
            old(self)@.wf(),
        ensures
            text_view(r) == project_among(dropped_files(dropped_views(items@)), 0),
            final(self)@ == (if r is Some {
                old(self)@
            } else {
                old(self)@.dropping_in(dropped_views(items@))
            }),
            final(self)@.wf(),
    {
        let files = files_of(items);
        match find_project(&files) {
            Some(p) => {
                return Some(p);
            },
            None => {},
        }
        let sorted = sort_dropped(items);
        self.take_music(sorted.music);
        self.tell_import(sorted.photos.len() == 0 && sorted.disappointing);
        self.add_photos(&sorted.photos);
        None
    }

    /// Files that the program was started with. A project file among them is to be
    /// opened, and nothing else is done; otherwise photos are added.
    pub fn open_initial(&mut self, files: &Vec<PickedFile>) -> (r: Option<String>)
        requires
            old(self)@.wf(),
        ensures
            text_view(r) == project_among(picked_views(files@), 0),
            final(self)@ == (if r is Some || files.len() == 0 {
                old(self)@
            } else {
                old(self)@.adding(picked_views(files@))
            }),
            final(self)@.wf(),
    {
        match find_project(files) {
            Some(p) => Some(p),
            None => {
                if files.len() > 0 {
                    self.add_photos(files);
                }
                None
            },
        }
    }

    /// The menu of a photo: all photos or photo `i` are removed, unless a conversion is
    /// running.
    pub fn remove_from_menu(&mut self, all: bool, i: Option<usize>, jobs: &mut Vec<String>)
        requires
            old(self)@.wf(),
            i matches Some(k) ==> k < old(self)@.photos.len(),
        ensures
            final(self)@ == (if old(self)@.job.working() {
                old(self)@
            } else if all {
                old(self)@.cleared()
            } else {
                match i {
                    Some(k) => old(self)@.removing(k as int),
                    None => old(self)@,
                }
            }),
            !old(self)@.job.working() && all ==> final(jobs)@.len() == 0,
            old(self)@.job.working() || !all ==> final(jobs)@ == old(jobs)@,
            final(self)@.wf(),
    {
        if !self.job.is_working() {
            if all {
                self.clear_photos(jobs);
            } else {
                match i {
                    Some(k) => self.remove_photo(k),
                    None => {},
                }
            }
        }
    }
}

} // verus!
