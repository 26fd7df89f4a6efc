//! What the actions of the editor change, and what they leave.

use crate::actions::{
    any_image, dropped_music, dropped_photos, folder_images, may_disappoint, project_among,
    DroppedView, FolderItemView,
};
use crate::adjust::Adjustments;
use crate::editor::{
    appended, first_state, holds, image_paths, merged, EditorView, Panels, PickedView,
    ProjectNamesView,
};
use crate::files::{audio_exts, has_ext, image_exts, project_ext};
use crate::options::{OutputFormat, Resolution};
use crate::order::{
    is_natural_order, is_permutation, natural_order, natural_order_exists, naturally_sorted,
    permutation_hits,
};
use crate::preview::PreviewView;
use crate::settings::SettingsView;
use crate::sizes::{even_down, greatest_size, size_for, without_size, SizesView};
use crate::text::lowercase;
use vstd::prelude::*;

verus! {

/// Sorting keeps all photos and brings in none.
proof fn lemma_sorted(list: Seq<Seq<char>>, p: Seq<char>)
    ensures
        naturally_sorted(list).contains(p) <==> list.contains(p),
{
    natural_order_exists(list);
    let perm = natural_order(list);
    assert(is_natural_order(list, perm));
    assert(is_permutation(perm, list.len()));
    let out = naturally_sorted(list);
    if list.contains(p) {
        let k = choose|k: int| 0 <= k < list.len() && list[k] == p;
        let j = permutation_hits(perm, list.len(), k);
        assert(out[j] == p);
    }
    if out.contains(p) {
        let j = choose|j: int| 0 <= j < out.len() && out[j] == p;
        assert(list[perm[j]] == p);
    }
}

proof fn lemma_image_paths(files: Seq<PickedView>, k: int)
    requires
        0 <= k < files.len(),
        has_ext(files[k].name, image_exts()),
    ensures
        image_paths(files).contains(files[k].path),
    decreases files.len(),
{
    let all = image_paths(files);
    if k == files.len() - 1 {
        assert(all[all.len() - 1] == files[k].path);
    } else {
        let head = files.drop_last();
        lemma_image_paths(head, k);
        let before = image_paths(head);
        let i = choose|i: int| 0 <= i < before.len() && before[i] == files[k].path;
        assert(all[i] == files[k].path);
    }
}

proof fn lemma_only_images(files: Seq<PickedView>, p: Seq<char>)
    requires
        image_paths(files).contains(p),
    ensures
        exists|k: int|
            0 <= k < files.len() && (#[trigger] files[k]).path == p && has_ext(
                files[k].name,
                image_exts(),
            ),
    decreases files.len(),
{
    let all = image_paths(files);
    let i = choose|i: int| 0 <= i < all.len() && all[i] == p;
    if files.len() > 0 {
        let head = files.drop_last();
        if has_ext(files.last().name, image_exts()) && i == all.len() - 1 {
            assert(files[files.len() - 1].path == p);
        } else {
            assert(image_paths(head)[i] == p);
            lemma_only_images(head, p);
            let k = choose|k: int|
                0 <= k < head.len() && (#[trigger] head[k]).path == p && has_ext(
                    head[k].name,
                    image_exts(),
                );
            assert(files[k] == head[k]);
        }
    }
}

proof fn lemma_appended_holds(photos: Seq<Seq<char>>, files: Seq<Seq<char>>, p: Seq<char>)
    ensures
        appended(photos, files).contains(p) ==> photos.contains(p) || files.contains(p),
        photos.contains(p) ==> appended(photos, files).contains(p),
        files.contains(p) ==> holds(appended(photos, files), p),
    decreases files.len(),
{
    let all = appended(photos, files);
    if files.len() > 0 {
        let head = files.drop_last();
        let before = appended(photos, head);
        lemma_appended_holds(photos, head, p);
        if all.contains(p) {
            let i = choose|i: int| 0 <= i < all.len() && all[i] == p;
            if i < before.len() {
                assert(before[i] == p);
                if head.contains(p) {
                    let k = choose|k: int| 0 <= k < head.len() && head[k] == p;
                    assert(files[k] == p);
                }
            } else {
                assert(files[files.len() - 1] == p);
            }
        }
        if photos.contains(p) {
            let i = choose|i: int| 0 <= i < before.len() && before[i] == p;
            assert(all[i] == p);
        }
        if files.contains(p) {
            let k = choose|k: int| 0 <= k < files.len() && files[k] == p;
            if k < head.len() {
                assert(head[k] == p);
                let i = choose|i: int|
                    0 <= i < before.len() && lowercase(#[trigger] before[i])
                        == lowercase(p);
                assert(all[i] == before[i]);
            } else if !holds(before, p) {
                assert(all[all.len() - 1] == p);
            }
        }
    }
}

/// Adding files brings in their images and nothing else: all photos that there were stay,
/// every image is in the list, but for the case of its letters, and every new photo is
/// one of the images.
pub proof fn images_are_added(v: EditorView, files: Seq<PickedView>, p: Seq<char>, k: int)
    ensures
        v.photos.contains(p) ==> v.adding(files).photos.contains(p),
        v.adding(files).photos.contains(p) && !v.photos.contains(p) ==> exists|j: int|
            0 <= j < files.len() && (#[trigger] files[j]).path == p && has_ext(
                files[j].name,
                image_exts(),
            ),
        0 <= k < files.len() && has_ext(files[k].name, image_exts()) ==> holds(
            v.adding(files).photos,
            files[k].path,
        ),
{
    let images = image_paths(files);
    let all = merged(v.photos, images);
    let list = appended(v.photos, images);
    lemma_appended_holds(v.photos, images, p);
    lemma_sorted(list, p);
    if all.contains(p) && !v.photos.contains(p) {
        lemma_only_images(files, p);
    }
    if 0 <= k < files.len() && has_ext(files[k].name, image_exts()) {
        let q = files[k].path;
        lemma_image_paths(files, k);
        lemma_appended_holds(v.photos, images, q);
        let i = choose|i: int|
            0 <= i < list.len() && lowercase(#[trigger] list[i])
                == lowercase(q);
        assert(list.contains(list[i]));
        lemma_sorted(list, list[i]);
        let j = choose|j: int| 0 <= j < all.len() && all[j] == list[i];
        assert(lowercase(all[j]) == lowercase(q));
    }
}

/// Adding photos changes neither the settings of the video nor the looks, the captions'
/// look, the thumbnails, or the project; the size of the photos is asked for anew.
pub proof fn adding_leaves_the_settings(v: EditorView, files: Seq<PickedView>)
    ensures
        ({
            let w = v.adding(files);
            &&& w.settings == v.settings && w.looks == v.looks && w.thumbs == v.thumbs
            &&& w.projects == v.projects && w.captions.style == v.captions.style
            &&& w.captions.selected == v.captions.selected && w.captions.fonts == v.captions.fonts
            &&& w.sizes == (SizesView { native: None, ..v.sizes })
            &&& w.photos.len() > 0 ==> w.preview.selected is Some && w.preview.dirty
            &&& v.preview.selected is None && w.photos.len() > 0 ==> w.preview.selected == Some(
                0int,
            )
            &&& !any_image(files) ==> w.panels == v.panels && w.job == v.job
            &&& any_image(files) ==> !w.panels.import_found_nothing && w.job
                == v.job.banner_cleared()
            &&& w.panels.text_open == v.panels.text_open && w.panels.fx_open == v.panels.fx_open
                && w.panels.fps_unsaved == v.panels.fps_unsaved
        }),
{
    let images = image_paths(files);
    if any_image(files) {
        let k = choose|k: int|
            0 <= k < files.len() && has_ext((#[trigger] files[k]).name, image_exts());
        lemma_image_paths(files, k);
    }
    if images.len() > 0 {
        assert(images.contains(images[0]));
        lemma_only_images(files, images[0]);
    }
}

/// Removing a photo takes it out of the list and forgets what was kept of it; the other
/// photos stay in order with their looks, sizes and thumbnails, and so do the settings.
pub proof fn removing_takes_one_photo(v: EditorView, i: int, p: Seq<char>)
    requires
        0 <= i < v.photos.len(),
    ensures
        ({
            let w = v.removing(i);
            &&& w.photos.len() == v.photos.len() - 1
            &&& forall|k: int| 0 <= k < i ==> #[trigger] w.photos[k] == v.photos[k]
            &&& forall|k: int| i <= k < w.photos.len() ==> #[trigger] w.photos[k] == v.photos[k + 1]
            &&& w.settings == v.settings && w.panels == v.panels && w.projects == v.projects
            &&& w.looks.adj == v.looks.adj
            &&& p != v.photos[i] ==> {
                &&& w.looks.effective(p) == v.looks.effective(p)
                &&& w.looks.chosen.contains(p) == v.looks.chosen.contains(p)
                &&& w.thumbs.contains_key(p) == v.thumbs.contains_key(p)
                &&& v.thumbs.contains_key(p) ==> w.thumbs[p] == v.thumbs[p]
                &&& w.sizes.known.contains_key(p) == v.sizes.known.contains_key(p)
                &&& v.sizes.known.contains_key(p) ==> w.sizes.known[p] == v.sizes.known[p]
            }
            &&& !w.thumbs.contains_key(v.photos[i])
            &&& !w.sizes.known.contains_key(v.photos[i])
            &&& w.sizes.native is None
            &&& w.job == v.job.banner_cleared()
        }),
{
}

/// Clearing the list leaves nothing of the photos, but the settings, the adjustments of
/// all photos, the look of the captions and the project. A new project starts with the
/// first settings, but keeps the frame rate and the recent projects.
pub proof fn clearing_leaves_the_settings(v: EditorView)
    ensures
        ({
            let w = v.cleared();
            &&& w.photos.len() == 0 && w.captions.entries.len() == 0
            &&& w.preview.selected is None && w.captions.selected is None
            &&& w.settings == v.settings && w.looks.adj == v.looks.adj && w.captions.style
                == v.captions.style && w.captions.fonts == v.captions.fonts && w.projects
                == v.projects
            &&& w.looks.overrides == Map::<Seq<char>, Adjustments>::empty()
            &&& w.looks.chosen == Set::<Seq<char>>::empty()
            &&& w.panels == (Panels { import_found_nothing: false, ..v.panels })
            &&& w.sizes.native is None && w.sizes.known == Map::<
                Seq<char>,
                Option<(u32, u32)>,
            >::empty()
            &&& w.thumbs == Map::<Seq<char>, crate::editor::Thumb>::empty()
            &&& w.job.state is Idle && w.job.output == v.job.output
            &&& !w.preview.ready && w.preview.error is None
            &&& w.wf()
        }),
        ({
            let w = v.renewed();
            &&& w.photos.len() == 0 && w.captions.entries.len() == 0
            &&& w.settings.fps == v.settings.fps
            &&& w.settings == (SettingsView {
                fps: v.settings.fps,
                ..first_state(None, v.captions.fonts, v.projects.recent).settings
            })
            &&& w.looks == first_state(None, v.captions.fonts, v.projects.recent).looks
            &&& w.captions == first_state(None, v.captions.fonts, v.projects.recent).captions
            &&& w.projects == (ProjectNamesView { current: None, ..v.projects })
            &&& w.wf()
        }),
{
    assert(v.renewed().captions.entries =~= seq![]);
}

/// The editor starts empty and sound, with the saved frame rate or ten photos a second.
pub proof fn editor_starts_empty(fps: u32, fonts: Seq<Seq<char>>, recent: Seq<Seq<char>>)
    ensures
        first_state(Some(fps), fonts, recent).wf(),
        first_state(Some(fps), fonts, recent).settings.fps == fps,
        first_state(None, fonts, recent).settings.fps == 10,
        first_state(Some(fps), fonts, recent).photos.len() == 0,
        first_state(Some(fps), fonts, recent).captions.fonts == fonts,
        first_state(Some(fps), fonts, recent).projects.recent == recent,
        first_state(Some(fps), fonts, recent).projects.current is None,
        !first_state(Some(fps), fonts, recent).job.working(),
{
}

/// A click shows its photo. Whatever keys are held, every photo keeps its adjustments,
/// and nothing but the selection and the preview changes.
pub proof fn click_shows_its_photo(v: EditorView, i: int, p: Seq<char>)
    requires
        0 <= i < v.photos.len(),
    ensures
        v.clicking(i).shown_photo() == Some(v.photos[i]),
        v.toggling(i).shown_photo() == Some(v.photos[i]),
        v.ranging(i).shown_photo() == Some(v.photos[i]),
        v.clicking(i).looks.effective(p) == v.looks.effective(p),
        v.toggling(i).looks.effective(p) == v.looks.effective(p),
        v.ranging(i).looks.effective(p) == v.looks.effective(p),
        v.clicking(i).looks.chosen == Set::<Seq<char>>::empty(),
        v.toggling(i).looks.chosen.contains(v.photos[i]) != v.looks.chosen.contains(v.photos[i]),
        p != v.photos[i] ==> v.toggling(i).looks.chosen.contains(p) == v.looks.chosen.contains(p),
        v.looks.chosen.contains(p) ==> v.ranging(i).looks.chosen.contains(p),
        v.clicking(i) == (EditorView {
            looks: v.clicking(i).looks,
            preview: v.clicking(i).preview,
            ..v
        }),
        v.toggling(i) == (EditorView {
            looks: v.toggling(i).looks,
            preview: v.toggling(i).preview,
            ..v
        }),
        v.ranging(i) == (EditorView { looks: v.ranging(i).looks, preview: v.ranging(i).preview, ..v
        }),
{
}

/// With the shift key all photos from the shown one to the clicked one join the
/// selection, whichever of the two comes first, and no others.
pub proof fn range_goes_from_the_shown_photo(v: EditorView, i: int, k: int)
    requires
        v.wf(),
        0 <= i < v.photos.len(),
        0 <= k < v.photos.len(),
    ensures
        ({
            let s = v.preview.selected->0;
            &&& s <= k <= i || i <= k <= s ==> v.ranging(i).looks.chosen.contains(v.photos[k])
            &&& v.ranging(i).looks.chosen.contains(v.photos[k]) ==> v.looks.chosen.contains(
                v.photos[k],
            ) || (exists|j: int|
                (s <= j <= i || i <= j <= s) && #[trigger] v.photos[j] == v.photos[k])
        }),
{
    let s = v.preview.selected->0;
    let lo = if s < i {
        s
    } else {
        i
    };
    let hi = if s < i {
        i
    } else {
        s
    };
    let w = v.looks.selecting_between(v.photos, lo, hi);
    assert(v.ranging(i).looks.chosen == w.chosen);
    if lo <= k <= hi {
        assert(crate::looks::photos_between(v.photos, lo, hi).contains(v.photos[k]));
    }
}

/// Moving the sliders, or taking adjustments back, renders the preview anew and changes
/// nothing but the looks.
pub proof fn adjusting_renders_anew(v: EditorView, work: Adjustments, reset: bool)
    ensures
        v.adjusting(work, reset).preview.dirty && v.unpinning().preview.dirty,
        v.adjusting(work, reset).looks.on_sliders() == work,
        v.adjusting(work, reset) == (EditorView {
            looks: v.adjusting(work, reset).looks,
            preview: v.preview.dirtied(),
            ..v
        }),
        v.unpinning() == (EditorView {
            looks: v.unpinning().looks,
            preview: v.preview.dirtied(),
            ..v
        }),
        v.unpinning().looks.adj == v.looks.adj,
{
}

/// A new caption goes from the shown photo to the last one.
pub proof fn new_caption_starts_at_the_shown_photo(v: EditorView)
    requires
        v.wf(),
    ensures
        ({
            let w = v.with_new_text();
            let e = w.captions.entries.last();
            &&& w.captions.entries.len() == v.captions.entries.len() + 1
            &&& v.photos.len() > 0 ==> v.photos[e.start - 1] == v.shown_photo()->0 && 1 <= e.start
                <= e.end && e.end == v.photos.len()
            &&& v.photos.len() == 0 ==> e.start == 1 && e.end == 1
            &&& w.captions.selected == Some(v.captions.entries.len() as int)
            &&& w.panels.text_open
            &&& w == (EditorView {
                captions: w.captions,
                panels: Panels { text_open: true, ..v.panels },
                ..v
            })
        }),
{
}

/// New settings are taken as they are and leave the others; another size renders the
/// preview anew, and another frame rate waits to be saved.
pub proof fn output_settings_are_taken(
    v: EditorView,
    fps: u32,
    format: OutputFormat,
    resolution: Resolution,
)
    ensures
        ({
            let w = v.with_output(fps, format, resolution);
            &&& w.settings.fps == fps && w.settings.format == format && w.settings.resolution
                == resolution
            &&& w.settings.transition == v.settings.transition && w.settings.ken_burns
                == v.settings.ken_burns && w.settings.music_path == v.settings.music_path
                && w.settings.music_volume == v.settings.music_volume && w.settings.music_fade
                == v.settings.music_fade
            &&& resolution != v.settings.resolution ==> w.preview.dirty
            &&& resolution == v.settings.resolution ==> w.preview == v.preview
            &&& w.panels.fps_unsaved <==> v.panels.fps_unsaved || fps != v.settings.fps
            &&& w.photos == v.photos && w.looks == v.looks && w.captions == v.captions
            &&& v.with_output(v.settings.fps, v.settings.format, v.settings.resolution) == v
        }),
{
}

/// It is told that nothing was found exactly if files were picked and none of them is an
/// image; an import with an image takes that back.
pub proof fn empty_import_is_told(v: EditorView, files: Seq<PickedView>)
    ensures
        any_image(files) ==> !v.picking(files).panels.import_found_nothing,
        files.len() > 0 && !any_image(files) ==> v.picking(
            files,
        ).panels.import_found_nothing,
        files.len() == 0 ==> v.picking(files).panels.import_found_nothing
            == v.panels.import_found_nothing,
        files.len() == 0 ==> v.picking_folder(files).panels.import_found_nothing,
        any_image(files) ==> !v.picking_folder(files).panels.import_found_nothing,
        v.picking(files).photos == v.adding(files).photos,
        v.picking_folder(files).photos == v.adding(files).photos,
{
    adding_leaves_the_settings(v.telling(files.len() > 0 && !any_image(files)), files);
    let w = EditorView {
        panels: Panels { import_found_nothing: files.len() == 0, ..v.panels },
        ..v
    };
    adding_leaves_the_settings(w, files);
}

/// Music is set by its path and shown; without music nothing changes.
pub proof fn dropped_music_is_set(v: EditorView, m: Seq<char>)
    ensures
        v.with_music(None) == v,
        v.with_music(Some(m)).settings == (SettingsView { music_path: Some(m), ..v.settings }),
        v.with_music(Some(m)).panels == (Panels { fx_open: true, ..v.panels }),
        v.with_music(Some(m)).photos == v.photos,
{
}

proof fn lemma_dropped_photos(a: Seq<DroppedView>, b: Seq<DroppedView>)
    ensures
        dropped_photos(a + b) == dropped_photos(a) + dropped_photos(b),
    decreases b.len(),
{
    if b.len() == 0 {
        assert(a + b =~= a);
        assert(dropped_photos(a) + dropped_photos(b) =~= dropped_photos(a));
    } else {
        assert((a + b).drop_last() =~= a + b.drop_last());
        assert((a + b).last() == b.last());
        lemma_dropped_photos(a, b.drop_last());
        assert(dropped_photos(a + b) =~= dropped_photos(a) + dropped_photos(b));
    }
}

/// Of what is dropped each photo and all that is in each folder is taken, in order; music
/// and other files are not taken for photos.
pub proof fn dropped_photos_are_taken(items: Seq<DroppedView>, k: int)
    requires
        0 <= k < items.len(),
    ensures
        dropped_photos(items) == dropped_photos(items.take(k)) + (if items[k].is_dir {
            items[k].inside
        } else if has_ext(items[k].file.name, image_exts()) && !items[k].is_music() {
            seq![items[k].file]
        } else {
            seq![]
        }) + dropped_photos(items.skip(k + 1)),
        !(items[k].is_music() && items[k].is_photo()),
        items[k].is_dir ==> !items[k].is_music() && !items[k].is_photo(),
{
    let one = seq![items[k]];
    assert(items =~= items.take(k) + one + items.skip(k + 1));
    lemma_dropped_photos(items.take(k) + one, items.skip(k + 1));
    lemma_dropped_photos(items.take(k), one);
    assert(one.drop_last() =~= seq![]);
    assert(dropped_photos(one.drop_last()) =~= seq![]);
    assert(dropped_photos(one) =~= if items[k].is_dir {
        items[k].inside
    } else if has_ext(items[k].file.name, image_exts()) && !items[k].is_music() {
        seq![items[k].file]
    } else {
        seq![]
    });
}

/// Of several pieces of music the last one is taken.
pub proof fn last_music_is_taken(items: Seq<DroppedView>, k: int)
    ensures
        0 <= k < items.len() && items[k].is_music() && (forall|j: int|
            k < j < items.len() ==> !(#[trigger] items[j]).is_music()) ==> dropped_music(items)
            == Some(items[k].file.path),
        (forall|j: int| 0 <= j < items.len() ==> !(#[trigger] items[j]).is_music())
            <==> dropped_music(items) is None,
    decreases items.len(),
{
    if items.len() > 0 {
        let head = items.drop_last();
        let n = items.len() - 1;
        last_music_is_taken(head, k);
        assert(items.last() == items[n]);
        if !items[n].is_music() {
            assert(forall|j: int| 0 <= j < n ==> head[j] == #[trigger] items[j]);
            if dropped_music(items) is None {
                assert forall|j: int| 0 <= j < items.len() implies !(
                #[trigger] items[j]).is_music() by {
                    if j < n {
                        assert(!head[j].is_music());
                    }
                }
            }
        }
    }
}

/// A drop sets its music and adds its photos; it is told that nothing was found if it
/// brought no photo although it held something other than music.
pub proof fn drop_brings_music_and_photos(v: EditorView, items: Seq<DroppedView>)
    ensures
        v.dropping_in(items).photos == v.adding(dropped_photos(items)).photos,
        dropped_music(items) matches Some(m) ==> v.dropping_in(items).settings.music_path
            == Some(m),
        dropped_music(items) is None ==> v.dropping_in(items).settings == v.settings,
        v.dropping_in(items).looks == v.looks,
        dropped_photos(items).len() == 0 && may_disappoint(items) ==> v.dropping_in(
            items,
        ).panels.import_found_nothing,
        dropped_photos(items).len() == 0 && !may_disappoint(items) ==> v.dropping_in(
            items,
        ).panels.import_found_nothing == v.panels.import_found_nothing,
{
    let photos = dropped_photos(items);
    let w = v.with_music(dropped_music(items)).telling(photos.len() == 0 && may_disappoint(items));
    adding_leaves_the_settings(w, photos);
}

/// Of a folder exactly the files that are images are taken, in order.
pub proof fn images_of_a_folder_are_taken(items: Seq<FolderItemView>, k: int)
    requires
        0 <= k < items.len(),
    ensures
        folder_images(items) == folder_images(items.take(k)) + (if items[k].is_file && has_ext(
            items[k].file.name,
            image_exts(),
        ) {
            seq![items[k].file]
        } else {
            seq![]
        }) + folder_images(items.skip(k + 1)),
{
    let one = seq![items[k]];
    assert(items =~= items.take(k) + one + items.skip(k + 1));
    lemma_folder_images(items.take(k) + one, items.skip(k + 1));
    lemma_folder_images(items.take(k), one);
    assert(one.drop_last() =~= seq![]);
    assert(folder_images(one.drop_last()) =~= seq![]);
    assert(folder_images(one) =~= if items[k].is_file && has_ext(
        items[k].file.name,
        image_exts(),
    ) {
        seq![items[k].file]
    } else {
        seq![]
    });
}

proof fn lemma_folder_images(a: Seq<FolderItemView>, b: Seq<FolderItemView>)
    ensures
        folder_images(a + b) == folder_images(a) + folder_images(b),
    decreases b.len(),
{
    if b.len() == 0 {
        assert(a + b =~= a);
        assert(folder_images(a) + folder_images(b) =~= folder_images(a));
    } else {
        assert((a + b).drop_last() =~= a + b.drop_last());
        assert((a + b).last() == b.last());
        lemma_folder_images(a, b.drop_last());
        assert(folder_images(a + b) =~= folder_images(a) + folder_images(b));
    }
}

/// Of several project files the first one is opened.
pub proof fn first_project_is_opened(items: Seq<PickedView>, i: int, k: int)
    requires
        0 <= i <= items.len(),
    ensures
        i <= k < items.len() && has_ext(items[k].name, seq![project_ext()]) && (forall|j: int|
            i <= j < k ==> !has_ext((#[trigger] items[j]).name, seq![project_ext()]))
            ==> project_among(items, i) == Some(items[k].path),
        (forall|j: int|
            i <= j < items.len() ==> !has_ext((#[trigger] items[j]).name, seq![project_ext()]))
            ==> project_among(items, i) is None,
    decreases items.len() - i,
{
    if i < items.len() && !has_ext(items[i].name, seq![project_ext()]) {
        first_project_is_opened(items, i + 1, k);
    }
}

/// The size of the video is the one that was chosen, or else large enough for every
/// photo whose size is known: no photo is wider or higher than the greatest size, and no
/// part of that size is greater than it needs to be.
pub proof fn greatest_size_holds_every_photo(
    photos: Seq<Seq<char>>,
    known: Map<Seq<char>, Option<(u32, u32)>>,
    n: int,
)
    requires
        0 <= n <= photos.len(),
    ensures
        ({
            let size = greatest_size(photos, known, n);
            &&& forall|k: int|
                0 <= k < n && known.contains_key(#[trigger] photos[k]) ==> (
                known[photos[k]] matches Some(s) ==> s.0 <= size.0 && s.1 <= size.1)
            &&& size.0 == 0 || exists|k: int|
                0 <= k < n && known.contains_key(#[trigger] photos[k]) && known[photos[k]] is Some
                    && (known[photos[k]]->0).0 == size.0
            &&& size.1 == 0 || exists|k: int|
                0 <= k < n && known.contains_key(#[trigger] photos[k]) && known[photos[k]] is Some
                    && (known[photos[k]]->0).1 == size.1
        }),
    decreases n,
{
    if n > 0 {
        greatest_size_holds_every_photo(photos, known, n - 1);
        let before = greatest_size(photos, known, n - 1);
        let size = greatest_size(photos, known, n);
        assert(known.contains_key(photos[n - 1]) || !known.contains_key(photos[n - 1]));
        if before.0 != 0 && size.0 == before.0 {
            let k = choose|k: int|
                0 <= k < n - 1 && known.contains_key(#[trigger] photos[k]) && known[photos[k]]
                    is Some && (known[photos[k]]->0).0 == before.0;
            assert(known.contains_key(photos[k]));
        }
        if before.1 != 0 && size.1 == before.1 {
            let k = choose|k: int|
                0 <= k < n - 1 && known.contains_key(#[trigger] photos[k]) && known[photos[k]]
                    is Some && (known[photos[k]]->0).1 == before.1;
            assert(known.contains_key(photos[k]));
        }
    }
}

/// Sizes of videos are even: each side is the greatest even number that is not above that
/// of the photos, and at least two. Without known sizes it is that of full HD.
pub proof fn sizes_are_even(n: u32, size: (u32, u32))
    ensures
        even_down(n) % 2 == 0,
        even_down(n) >= 2,
        n >= 2 ==> even_down(n) <= n < even_down(n) + 2,
        size.0 > 0 && size.1 > 0 ==> size_for(size).w == even_down(size.0) && size_for(size).h
            == even_down(size.1),
        size.0 == 0 || size.1 == 0 ==> size_for(size) == (Resolution { w: 1920, h: 1080 }),
{
}

/// The chosen size is taken as it is; without one the size that was found, or else that
/// of the known photos.
pub proof fn chosen_size_comes_first(v: EditorView, r: Resolution)
    ensures
        v.settings.resolution.w != 0 ==> v.output_size() == v.settings.resolution,
        v.settings.resolution.w == 0 && v.sizes.native == Some(r) ==> v.output_size() == r,
        v.settings.resolution.w == 0 && v.sizes.native is None ==> v.output_size() == size_for(
            greatest_size(v.photos, v.sizes.known, v.photos.len() as int),
        ),
{
}

/// The photos whose size is still to be read are exactly those of which nothing is known,
/// in order.
pub proof fn unknown_sizes_are_read(
    photos: Seq<Seq<char>>,
    known: Map<Seq<char>, Option<(u32, u32)>>,
    p: Seq<char>,
)
    ensures
        without_size(photos, known).contains(p) <==> photos.contains(p) && !known.contains_key(p),
    decreases photos.len(),
{
    let all = without_size(photos, known);
    if photos.len() > 0 {
        let head = photos.drop_last();
        let before = without_size(head, known);
        unknown_sizes_are_read(head, known, p);
        if all.contains(p) {
            let i = choose|i: int| 0 <= i < all.len() && all[i] == p;
            if i < before.len() {
                assert(before[i] == p);
                let k = choose|k: int| 0 <= k < head.len() && head[k] == p;
                assert(photos[k] == p);
            } else {
                assert(photos[photos.len() - 1] == p);
            }
        }
        if photos.contains(p) && !known.contains_key(p) {
            let k = choose|k: int| 0 <= k < photos.len() && photos[k] == p;
            if k < head.len() {
                assert(head[k] == p);
                let i = choose|i: int| 0 <= i < before.len() && before[i] == p;
                assert(all[i] == p);
            } else {
                assert(all[all.len() - 1] == p);
            }
        }
    }
}

/// The neighbours of the shown photo are the one before it and the one behind it, where
/// they are.
pub proof fn neighbours_are_next_to_the_shown_photo(v: EditorView, i: int)
    requires
        v.preview.selected == Some(i),
        0 <= i < v.photos.len(),
    ensures
        i > 0 ==> v.neighbours().contains(v.photos[i - 1]),
        i + 1 < v.photos.len() ==> v.neighbours().contains(v.photos[i + 1]),
        v.neighbours().len() == (if i > 0 {
            1int
        } else {
            0
        }) + (if i + 1 < v.photos.len() {
            1int
        } else {
            0
        }),
{
    let n = v.neighbours();
    if i > 0 {
        assert(n[0] == v.photos[i - 1]);
    }
    if i + 1 < v.photos.len() {
        assert(n[n.len() - 1] == v.photos[i + 1]);
    }
}

/// A preview is rendered once for each change: what was changed is due unless a rendering
/// is under way, and what is being rendered is not due again. Its neighbours are prepared
/// only when nothing else is to be done.
pub proof fn changes_are_rendered_once(v: EditorView, i: int)
    requires
        0 <= i < v.photos.len(),
    ensures
        v.preview.selected == Some(i) && !v.preview.rendering ==> (EditorView {
            preview: v.preview.dirtied(),
            ..v
        }).render_due(),
        !(EditorView { preview: v.preview.render_begun(), ..v }).render_due(),
        v.preview.rendering ==> !v.render_due(),
        v.photos.len() > 0 && v.preview.selected is None ==> !v.render_due(),
        v.prefetch_due() ==> !v.render_due() && !v.preview.dirty && !v.preview.rendering
            && !v.job.working(),
        !(EditorView {
            preview: PreviewView { prefetched: v.preview.selected, ..v.preview },
            ..v
        }).prefetch_due(),
        v.preview.selected == Some(i) && !v.preview.dirty && !v.preview.rendering
            && !v.job.working() && v.preview.prefetched is None ==> v.prefetch_due(),
{
}

/// An import has an image if one of its files is one, and a drop may disappoint if it
/// holds anything but photos and music.
pub proof fn one_image_is_enough(
    files: Seq<PickedView>,
    items: Seq<DroppedView>,
    k: int,
)
    ensures
        0 <= k < files.len() && has_ext(files[k].name, image_exts()) ==> any_image(files),
        (forall|j: int|
            0 <= j < files.len() ==> !has_ext((#[trigger] files[j]).name, image_exts()))
            ==> !any_image(files),
        0 <= k < items.len() && items[k].is_dir ==> may_disappoint(items),
        0 <= k < items.len() && !has_ext(items[k].file.name, image_exts()) && !has_ext(
            items[k].file.name,
            audio_exts(),
        ) ==> may_disappoint(items),
        (forall|j: int|
            0 <= j < items.len() ==> !(#[trigger] items[j]).is_dir && (has_ext(
                items[j].file.name,
                image_exts(),
            ) || has_ext(items[j].file.name, audio_exts()))) ==> !may_disappoint(items),
{
}

} // verus!
