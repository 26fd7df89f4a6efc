//! What opening and saving a project keeps.

use crate::adjust::Adjustments;
use crate::caption::{count_kept, lemma_count_grows};
use crate::editor::{lemma_first_place, EditorView};
use crate::files::{has_ext, image_exts, stem_of};
use crate::graph_laws::begins;
use crate::options::{menu_resolutions, OutputFormat, Resolution, Transition};
use crate::project::{
    empty_project, kept_items, missing_text, named, overrides_in_order, restored,
    restored_overrides, restored_settings, restored_style, saved, title_text, usable, FactView,
    ProjectView,
};
use crate::settings::{first_settings, SettingsView};
use crate::text::{dec, has_part};
use vstd::prelude::*;

verus! {

/// What is missing costs only itself. Whichever photos are there and whether the music
/// is, the adjustments of all photos, the look of the captions and every setting but the
/// path of the music are those of the project; and a photo that is there looks as it
/// does when any other files are there.
pub proof fn what_is_missing_costs_only_itself(
    v: EditorView,
    p: ProjectView,
    facts: Seq<FactView>,
    there: Seq<FactView>,
    music_there: bool,
    q: Seq<char>,
)
    ensures
        ({
            let opened = restored(v, p, facts, music_there);
            let whole = restored(v, p, there, true);
            &&& opened.looks.adj == p.adj.clamped_spec()
            &&& opened.looks.adj == whole.looks.adj
            &&& opened.settings == (SettingsView {
                music_path: opened.settings.music_path,
                ..whole.settings
            })
            &&& opened.settings.music_path == if music_there {
                p.music_path
            } else {
                None
            }
            &&& whole.settings.music_path == p.music_path
            &&& opened.captions.style == whole.captions.style
            &&& opened.captions.fonts == v.captions.fonts
            &&& opened.projects == v.projects
            &&& opened.photos.contains(q) && whole.photos.contains(q) ==> {
                &&& opened.looks.overrides.contains_key(q) == whole.looks.overrides.contains_key(q)
                &&& opened.looks.effective(q) == whole.looks.effective(q)
            }
        }),
{
    let opened = restored(v, p, facts, music_there);
    let whole = restored(v, p, there, true);
    lemma_override(p.adj_overrides, opened.photos, q);
    lemma_override(p.adj_overrides, whole.photos, q);
}

/// The last of the adjustments that a list holds for a photo.
pub open spec fn last_for(pairs: Seq<(Seq<char>, Adjustments)>, q: Seq<char>) -> Option<int>
    decreases pairs.len(),
{
    if pairs.len() == 0 {
        None
    } else if pairs.last().0 == q {
        Some(pairs.len() - 1)
    } else {
        last_for(pairs.drop_last(), q)
    }
}

proof fn lemma_override(
    pairs: Seq<(Seq<char>, Adjustments)>,
    photos: Seq<Seq<char>>,
    q: Seq<char>,
)
    ensures
        restored_overrides(pairs, photos).contains_key(q) <==> photos.contains(q) && last_for(
            pairs,
            q,
        ) is Some,
        restored_overrides(pairs, photos).contains_key(q) ==> (last_for(pairs, q) matches Some(k)
            && 0 <= k < pairs.len() && pairs[k].0 == q && restored_overrides(pairs, photos)[q]
            == pairs[k].1.clamped_spec() && (forall|j: int|
            k < j < pairs.len() ==> (#[trigger] pairs[j]).0 != q)),
    decreases pairs.len(),
{
    if pairs.len() > 0 {
        let head = pairs.drop_last();
        lemma_override(head, photos, q);
        assert(pairs[pairs.len() - 1] == pairs.last());
        if restored_overrides(pairs, photos).contains_key(q) && pairs.last().0 != q {
            let k = last_for(head, q)->0;
            assert(head[k] == pairs[k]);
            assert forall|j: int| k < j < pairs.len() implies (#[trigger] pairs[j]).0 != q by {
                if j < head.len() {
                    assert(head[j] == pairs[j]);
                }
            }
        }
    }
}

/// Exactly the photos of the list that the project has adjustments for get them, in
/// their range; of several for one photo the last ones.
pub proof fn photos_get_their_own_adjustments(
    v: EditorView,
    p: ProjectView,
    facts: Seq<FactView>,
    music_there: bool,
    q: Seq<char>,
    k: int,
)
    ensures
        ({
            let opened = restored(v, p, facts, music_there);
            &&& !opened.photos.contains(q) ==> !opened.looks.overrides.contains_key(q)
            &&& opened.photos.contains(q) && 0 <= k < p.adj_overrides.len()
                && p.adj_overrides[k].0 == q && (forall|j: int|
                k < j < p.adj_overrides.len() ==> (#[trigger] p.adj_overrides[j]).0 != q)
                ==> opened.looks.overrides.contains_key(q) && opened.looks.overrides[q]
                == p.adj_overrides[k].1.clamped_spec()
            &&& (forall|j: int|
                0 <= j < p.adj_overrides.len() ==> (#[trigger] p.adj_overrides[j]).0 != q)
                ==> !opened.looks.overrides.contains_key(q)
        }),
{
    let opened = restored(v, p, facts, music_there);
    lemma_override(p.adj_overrides, opened.photos, q);
    lemma_last_for(p.adj_overrides, q);
}

proof fn lemma_last_for(pairs: Seq<(Seq<char>, Adjustments)>, q: Seq<char>)
    ensures
        match last_for(pairs, q) {
            Some(k) => 0 <= k < pairs.len() && pairs[k].0 == q && (forall|j: int|
                k < j < pairs.len() ==> (#[trigger] pairs[j]).0 != q),
            None => forall|j: int| 0 <= j < pairs.len() ==> (#[trigger] pairs[j]).0 != q,
        },
    decreases pairs.len(),
{
    if pairs.len() > 0 && pairs.last().0 != q {
        let head = pairs.drop_last();
        lemma_last_for(head, q);
        match last_for(head, q) {
            Some(k) => {
                assert(head[k] == pairs[k]);
                assert forall|j: int| k < j < pairs.len() implies (#[trigger] pairs[j]).0 != q by {
                    if j < head.len() {
                        assert(head[j] == pairs[j]);
                    }
                }
            },
            None => {
                assert forall|j: int| 0 <= j < pairs.len() implies (#[trigger] pairs[j]).0 != q by {
                    if j < head.len() {
                        assert(head[j] == pairs[j]);
                    }
                }
            },
        }
    }
}

proof fn lemma_kept_place(items: Seq<Seq<char>>, kept: Seq<bool>, i: int)
    requires
        items.len() <= kept.len(),
        0 <= i < items.len(),
    ensures
        kept_items(items, kept).len() == count_kept(kept, items.len() as int),
        kept[i] ==> 0 <= count_kept(kept, i) < kept_items(items, kept).len() && kept_items(
            items,
            kept,
        )[count_kept(kept, i)] == items[i],
    decreases items.len(),
{
    let head = items.drop_last();
    let n = items.len() - 1;
    lemma_kept_len(head, kept);
    lemma_count_grows(kept, 0, i);
    if i < n {
        lemma_kept_place(head, kept, i);
        assert(head[i] == items[i]);
    }
}

proof fn lemma_kept_len(items: Seq<Seq<char>>, kept: Seq<bool>)
    requires
        items.len() <= kept.len(),
    ensures
        kept_items(items, kept).len() == count_kept(kept, items.len() as int),
    decreases items.len(),
{
    if items.len() > 0 {
        lemma_kept_len(items.drop_last(), kept);
    }
}

/// Exactly the photos that are there and are images are opened, in the order of the
/// project: a photo stands behind as many as are kept of those before it.
pub proof fn photos_that_are_there_keep_their_order(
    v: EditorView,
    p: ProjectView,
    facts: Seq<FactView>,
    music_there: bool,
    i: int,
)
    requires
        facts.len() == p.photos.len(),
        0 <= i < facts.len(),
    ensures
        ({
            let opened = restored(v, p, facts, music_there);
            let kept = usable(facts);
            &&& kept[i] <==> facts[i].is_file && has_ext(facts[i].name, image_exts())
            &&& opened.photos.len() == count_kept(kept, kept.len() as int)
            &&& kept[i] ==> 0 <= count_kept(kept, i) < opened.photos.len()
                && opened.photos[count_kept(kept, i)] == p.photos[i]
        }),
{
    lemma_kept_place(p.photos, usable(facts), i);
}

/// Values of a project that are in their range are taken as they are, and others move to
/// the nearest one that is.
pub proof fn values_of_a_project_are_taken(
    p: ProjectView,
    fonts: Seq<Seq<char>>,
    music_there: bool,
)
    ensures
        ({
            let s = restored_settings(p, music_there);
            let t = restored_style(p, fonts);
            &&& 1 <= p.fps <= 60 ==> s.fps == p.fps
            &&& p.fps < 1 ==> s.fps == 1
            &&& p.fps > 60 ==> s.fps == 60
            &&& 0 <= p.music_volume <= 200 ==> s.music_volume == p.music_volume
            &&& p.music_volume < 0 ==> s.music_volume == 0
            &&& p.music_volume > 200 ==> s.music_volume == 200
            &&& s.ken_burns == p.ken_burns && s.music_fade == p.music_fade
            &&& menu_resolutions().contains(
                Resolution { w: p.resolution.0, h: p.resolution.1 },
            ) ==> s.resolution == (Resolution { w: p.resolution.0, h: p.resolution.1 })
            &&& !menu_resolutions().contains(
                Resolution { w: p.resolution.0, h: p.resolution.1 },
            ) ==> s.resolution == (Resolution { w: 1920, h: 1080 })
            &&& forall|f: OutputFormat|
                #![trigger f.ext_spec()]
                p.format == f.ext_spec() ==> s.format == f
            &&& forall|x: Transition|
                #![trigger x.id_spec()]
                p.transition == x.id_spec() ==> s.transition == x
            &&& OutputFormat::from_ext_spec(p.format) is None ==> s.format == OutputFormat::Mp4
            &&& Transition::from_id_spec(p.transition) is None ==> s.transition == Transition::Cut
            &&& t.color == p.sub_color && t.outline_color == p.sub_outline_color && t.boxed
                == p.sub_boxed
            &&& 0 <= p.sub_outline_w <= 8 ==> t.outline_w == p.sub_outline_w
            &&& p.sub_outline_w < 0 ==> t.outline_w == 0
            &&& p.sub_outline_w > 8 ==> t.outline_w == 8
            &&& !fonts.contains(p.sub_font) ==> t.font_idx == 0
            &&& fonts.contains(p.sub_font) && fonts.len() <= usize::MAX ==> t.font_idx
                < fonts.len() && fonts[t.font_idx as int] == p.sub_font
        }),
{
    assert forall|f: OutputFormat| #![trigger f.ext_spec()] p.format == f.ext_spec() implies restored_settings(
        p,
        music_there,
    ).format == f by {
        crate::options::format_is_found_by_its_extension(f, p.format);
    }
    assert forall|x: Transition| #![trigger x.id_spec()] p.transition
        == x.id_spec() implies restored_settings(p, music_there).transition == x by {
        crate::options::transition_is_found_by_its_id(x, p.transition);
    }
    lemma_first_place(fonts, p.sub_font, 0);
    if fonts.contains(p.sub_font) {
        let k = choose|k: int| 0 <= k < fonts.len() && fonts[k] == p.sub_font;
        assert(fonts[k] == p.sub_font);
    }
}

/// An opened project shows its first photo, and nothing if it has none; nothing is
/// selected, and no settings are waiting to be written.
pub proof fn opened_project_shows_its_first_photo(
    v: EditorView,
    p: ProjectView,
    facts: Seq<FactView>,
    music_there: bool,
)
    ensures
        ({
            let opened = restored(v, p, facts, music_there);
            &&& opened.photos.len() > 0 ==> opened.preview.selected == Some(0int)
                && opened.preview.dirty && opened.preview.error is None
            &&& opened.photos.len() == 0 ==> opened.preview.selected is None
            &&& !opened.preview.ready
            &&& opened.panels == (crate::editor::Panels {
                fps_unsaved: false,
                import_found_nothing: false,
                ..v.panels
            })
            &&& opened.sizes == crate::sizes::no_sizes()
            &&& opened.thumbs == Map::<Seq<char>, crate::editor::Thumb>::empty()
            &&& opened.job.state is Idle && opened.job.output == v.job.output
            &&& opened.captions.selected is None
            &&& opened.looks.chosen == Set::<Seq<char>>::empty()
        }),
{
}

/// What is saved is what the editor holds. A project saved before anything was changed
/// is the empty one.
pub proof fn saved_project_holds_the_editor(v: EditorView, version: Seq<char>)
    ensures
        saved(v, version).app_version == version,
        saved(v, version).photos == v.photos,
        saved(v, version).sub_entries == v.captions.entries,
        saved(v, version).adj == v.looks.adj,
        saved(v, version).music_path == v.settings.music_path,
        v.photos.len() == 0 && v.captions.entries.len() == 0 && v.captions.fonts.len() == 0
            && v.captions.style == crate::style::plain_style() && v.looks.adj
            == crate::adjust::neutral() && v.settings == first_settings(10) && version
            == Seq::<char>::empty() ==> saved(v, version) == empty_project(),
        restored_settings(empty_project(), true) == first_settings(10),
{
    crate::options::format_is_found_by_its_extension(OutputFormat::Mp4, "mp4"@);
    crate::options::transition_is_found_by_its_id(Transition::Cut, "none"@);
    if v.photos.len() == 0 && v.captions.entries.len() == 0 {
        assert(v.photos =~= seq![]);
        assert(v.captions.entries =~= seq![]);
        assert(overrides_in_order(v.photos, v.looks.overrides) =~= seq![]);
    }
    assert(menu_resolutions()[1] == crate::options::full_hd());
}

/// What is told after opening names the number of photos that are missing, and music
/// that is; with nothing missing nothing is told.
pub proof fn missing_files_are_told(photos: nat)
    ensures
        missing_text(0, false) is None,
        photos > 0 ==> (missing_text(photos, false) matches Some(t) && has_part(
            t,
            " "@ + dec(photos) + " "@,
        )),
        missing_text(0, true) is Some,
        photos > 0 ==> missing_text(photos, true) == Some(
            missing_text(photos, false)->0 + "\n"@ + missing_text(0, true)->0,
        ),
{
    if photos > 0 {
        let t = missing_text(photos, false)->0;
        let rest = "張照片已不在原路徑（或不是支援的圖片檔），已從清單移除。"@;
        assert("有 "@ =~= "有"@ + " "@) by {
            reveal_strlit("有 ");
            reveal_strlit("有");
            reveal_strlit(" ");
        }
        assert(" 張照片已不在原路徑（或不是支援的圖片檔），已從清單移除。"@ =~= " "@ + rest) by {
            reveal_strlit(" 張照片已不在原路徑（或不是支援的圖片檔），已從清單移除。");
            reveal_strlit("張照片已不在原路徑（或不是支援的圖片檔），已從清單移除。");
            reveal_strlit(" ");
        }
        assert(t =~= "有"@ + (" "@ + dec(photos) + " "@) + rest);
    }
}

/// The window is named after the project.
pub proof fn window_is_named_after_the_project(name: Seq<char>)
    ensures
        begins(title_text(Some(name)), stem_of(name)),
        has_part(title_text(Some(name)), "Photo2Video"@),
        has_part(title_text(None), "Photo2Video"@),
{
    let a = " — Photo2Video"@;
    let p = "Photo2Video"@;
    assert(a =~= " — "@ + p) by {
        reveal_strlit(" — Photo2Video");
        reveal_strlit(" — ");
        reveal_strlit("Photo2Video");
    }
    assert(title_text(Some(name)) =~= (stem_of(name) + " — "@) + p + seq![]);
    assert("Photo2Video — 照片轉影片"@ =~= seq![] + p + " — 照片轉影片"@) by {
        reveal_strlit("Photo2Video — 照片轉影片");
        reveal_strlit(" — 照片轉影片");
        reveal_strlit("Photo2Video");
    }
}

/// A project that was opened or saved is the current one and the first of the recent
/// ones, and nothing else of the editor changes.
pub proof fn named_project_is_current(v: EditorView, path: Seq<char>)
    ensures
        named(v, path).projects.current == Some(path),
        named(v, path).projects.recent.len() > 0 && named(v, path).projects.recent[0] == path,
        named(v, path) == (EditorView { projects: named(v, path).projects, ..v }),
{
}

} // verus!
