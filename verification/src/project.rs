//! Project files: what is saved of the editor, and how it is restored.

use crate::adjust::{clamp, clamp_int, neutral, Adjustments};
use crate::caption::{
    after_removal, count_kept, entry_views, lemma_count_grows, removed_in_turn,
    restoring_is_removing_in_turn, EntryView, SubtitleEntry,
};
use crate::captions::CaptionsView;
use crate::config::{forget_recent_project, remember_recent_project, remembered, without};
use crate::editor::{
    clone_texts, find_first, first_place, lemma_first_place, Editor, EditorView, Panels,
    ProjectNamesView,
};
use crate::files::{has_ext, image_exts, is_image, stem, stem_of};
use crate::looks::LooksView;
use crate::options::{
    format_is_found_by_its_extension, full_hd, menu_resolutions, transition_is_found_by_its_id,
    OutputFormat, Resolution, Transition,
};
use crate::preview::PreviewView;
use crate::settings::{Settings, SettingsView};
use crate::style::{plain_style, Rgba, SubtitleStyle};
use crate::text::{dec, push_dec, text_view, texts};
use vstd::hash_map::StringHashMap;
use vstd::prelude::*;

verus! {

/// What a project file holds: the photos and all settings.
pub struct ProjectFile {
    /// The version of the file's format.
    pub version: u32,
    /// The version of the program that wrote the file.
    pub app_version: String,
    pub photos: Vec<String>,
    pub fps: u32,
    /// The file extension of the video.
    pub format: String,
    pub resolution: (u32, u32),
    pub adj: Adjustments,
    pub adj_overrides: Vec<(String, Adjustments)>,
    pub sub_entries: Vec<SubtitleEntry>,
    /// The name of the font.
    pub sub_font: String,
    pub sub_color: Rgba,
    pub sub_outline_w: i32,
    pub sub_outline_color: Rgba,
    pub sub_boxed: bool,
    pub transition: String,
    pub ken_burns: bool,
    pub music_path: Option<String>,
    pub music_volume: i32,
    pub music_fade: bool,
}

/// What a project file stands for.
pub struct ProjectView {
    pub version: u32,
    pub app_version: Seq<char>,
    pub photos: Seq<Seq<char>>,
    pub fps: u32,
    pub format: Seq<char>,
    pub resolution: (u32, u32),
    pub adj: Adjustments,
    pub adj_overrides: Seq<(Seq<char>, Adjustments)>,
    pub sub_entries: Seq<EntryView>,
    pub sub_font: Seq<char>,
    pub sub_color: Rgba,
    pub sub_outline_w: i32,
    pub sub_outline_color: Rgba,
    pub sub_boxed: bool,
    pub transition: Seq<char>,
    pub ken_burns: bool,
    pub music_path: Option<Seq<char>>,
    pub music_volume: i32,
    pub music_fade: bool,
}

/// What a list of adjustments by path stands for.
pub open spec fn pair_views(v: Seq<(String, Adjustments)>) -> Seq<(Seq<char>, Adjustments)> {
    v.map_values(|p: (String, Adjustments)| (p.0@, p.1))
}

impl View for ProjectFile {
    type V = ProjectView;

    open spec fn view(&self) -> ProjectView {
        ProjectView {
            version: self.version,
            app_version: self.app_version@,
            photos: texts(self.photos@),
            fps: self.fps,
            format: self.format@,
            resolution: self.resolution,
            adj: self.adj,
            adj_overrides: pair_views(self.adj_overrides@),
            sub_entries: entry_views(self.sub_entries@),
            sub_font: self.sub_font@,
            sub_color: self.sub_color,
            sub_outline_w: self.sub_outline_w,
            sub_outline_color: self.sub_outline_color,
            sub_boxed: self.sub_boxed,
            transition: self.transition@,
            ken_burns: self.ken_burns,
            music_path: text_view(self.music_path),
            music_volume: self.music_volume,
            music_fade: self.music_fade,
        }
    }
}

/// A project file without photos and with the first settings.
pub open spec fn empty_project() -> ProjectView {
    ProjectView {
        version: 1,
        app_version: seq![],
        photos: seq![],
        fps: 10,
        format: "mp4"@,
        resolution: (1920, 1080),
        adj: neutral(),
        adj_overrides: seq![],
        sub_entries: seq![],
        sub_font: seq![],
        sub_color: plain_style().color,
        sub_outline_w: plain_style().outline_w,
        sub_outline_color: plain_style().outline_color,
        sub_boxed: plain_style().boxed,
        transition: "none"@,
        ken_burns: false,
        music_path: None,
        music_volume: 100,
        music_fade: true,
    }
}

impl Default for ProjectFile {
    fn default() -> (r: Self)
        ensures
            r@ == empty_project(),
    {
        let style = SubtitleStyle::default();
        let r = ProjectFile {
            version: 1,
            app_version: String::new(),
            photos: Vec::new(),
            fps: 10,
            format: "mp4".to_owned(),
            resolution: (1920, 1080),
            adj: Adjustments::default(),
            adj_overrides: Vec::new(),
            sub_entries: Vec::new(),
            sub_font: String::new(),
            sub_color: style.color,
            sub_outline_w: style.outline_w,
            sub_outline_color: style.outline_color,
            sub_boxed: style.boxed,
            transition: "none".to_owned(),
            ken_burns: false,
            music_path: None,
            music_volume: 100,
            music_fade: true,
        };
        assert(r@.app_version =~= seq![]);
        assert(r@.photos =~= seq![]);
        assert(r@.adj_overrides =~= seq![]);
        assert(r@.sub_entries =~= seq![]);
        assert(r@.sub_font =~= seq![]);
        r
    }
}

/// The adjustments of single photos, in the order of the photos.
pub open spec fn overrides_in_order(
    photos: Seq<Seq<char>>,
    overrides: Map<Seq<char>, Adjustments>,
) -> Seq<(Seq<char>, Adjustments)>
    decreases photos.len(),
{
    if photos.len() == 0 {
        seq![]
    } else {
        let head = overrides_in_order(photos.drop_last(), overrides);
        if overrides.contains_key(photos.last()) {
            head.push((photos.last(), overrides[photos.last()]))
        } else {
            head
        }
    }
}

/// What is saved of the editor.
pub open spec fn saved(v: EditorView, version: Seq<char>) -> ProjectView {
    ProjectView {
        version: 1,
        app_version: version,
        photos: v.photos,
        fps: v.settings.fps,
        format: v.settings.format.ext_spec(),
        resolution: (v.settings.resolution.w, v.settings.resolution.h),
        adj: v.looks.adj,
        adj_overrides: overrides_in_order(v.photos, v.looks.overrides),
        sub_entries: v.captions.entries,
        sub_font: font_name(v.captions),
        sub_color: v.captions.style.color,
        sub_outline_w: v.captions.style.outline_w,
        sub_outline_color: v.captions.style.outline_color,
        sub_boxed: v.captions.style.boxed,
        transition: v.settings.transition.id_spec(),
        ken_burns: v.settings.ken_burns,
        music_path: v.settings.music_path,
        music_volume: v.settings.music_volume,
        music_fade: v.settings.music_fade,
    }
}

/// The name of the font of the captions; empty where there is none.
pub open spec fn font_name(c: CaptionsView) -> Seq<char> {
    if c.style.font_idx < c.fonts.len() {
        c.fonts[c.style.font_idx as int]
    } else {
        seq![]
    }
}

/// What is known of a file that a project names: its name, and whether it is there.
pub struct FileFact {
    pub name: String,
    pub is_file: bool,
}

/// What a file fact stands for.
pub struct FactView {
    pub name: Seq<char>,
    pub is_file: bool,
}

impl View for FileFact {
    type V = FactView;

    open spec fn view(&self) -> FactView {
        FactView { name: self.name@, is_file: self.is_file }
    }
}

/// What a list of file facts stands for.
pub open spec fn fact_views(v: Seq<FileFact>) -> Seq<FactView> {
    v.map_values(|f: FileFact| f@)
}

/// Which photos of a project can be used: those that are there and are images.
pub open spec fn usable(facts: Seq<FactView>) -> Seq<bool> {
    facts.map_values(|f: FactView| f.is_file && has_ext(f.name, image_exts()))
}

/// The items that are kept, in order.
pub open spec fn kept_items(items: Seq<Seq<char>>, kept: Seq<bool>) -> Seq<Seq<char>>
    decreases items.len(),
{
    if items.len() == 0 {
        seq![]
    } else if kept[items.len() - 1] {
        kept_items(items.drop_last(), kept).push(items.last())
    } else {
        kept_items(items.drop_last(), kept)
    }
}

/// The adjustments of the photos that are there, in their range; of two for the same
/// photo the later one counts.
pub open spec fn restored_overrides(
    pairs: Seq<(Seq<char>, Adjustments)>,
    photos: Seq<Seq<char>>,
) -> Map<Seq<char>, Adjustments>
    decreases pairs.len(),
{
    if pairs.len() == 0 {
        Map::empty()
    } else {
        let head = restored_overrides(pairs.drop_last(), photos);
        if photos.contains(pairs.last().0) {
            head.insert(pairs.last().0, pairs.last().1.clamped_spec())
        } else {
            head
        }
    }
}

/// The captions whose photos are not all gone, with their new numbers and with their
/// values in range.
pub open spec fn restored_entries(entries: Seq<EntryView>, kept: Seq<bool>) -> Seq<EntryView>
    decreases entries.len(),
{
    if entries.len() == 0 {
        seq![]
    } else {
        let head = restored_entries(entries.drop_last(), kept);
        match entries.last().remapped(kept) {
            Some(e) => head.push(e.in_range()),
            None => head,
        }
    }
}

/// The look of the captions out of a project.
pub open spec fn restored_style(p: ProjectView, fonts: Seq<Seq<char>>) -> SubtitleStyle {
    SubtitleStyle {
        font_idx: match first_place(fonts, p.sub_font, 0) {
            Some(i) => i as usize,
            None => 0,
        },
        color: p.sub_color,
        outline_w: clamp_int(p.sub_outline_w as int, 0, 8) as i32,
        outline_color: p.sub_outline_color,
        boxed: p.sub_boxed,
    }
}

/// The format with the extension; MP4 where there is none.
pub open spec fn format_named(ext: Seq<char>) -> OutputFormat {
    match OutputFormat::from_ext_spec(ext) {
        Some(f) => f,
        None => OutputFormat::Mp4,
    }
}

/// The transition with the name; a plain cut where there is none.
pub open spec fn transition_named(id: Seq<char>) -> Transition {
    match Transition::from_id_spec(id) {
        Some(t) => t,
        None => Transition::Cut,
    }
}

/// The settings of a project, each in its range. `music_there` tells whether the music
/// can be used.
pub open spec fn restored_settings(p: ProjectView, music_there: bool) -> SettingsView {
    SettingsView {
        fps: clamp_int(p.fps as int, 1, 60) as u32,
        format: format_named(p.format),
        resolution: Resolution::from_menu_spec(p.resolution.0, p.resolution.1),
        transition: transition_named(p.transition),
        ken_burns: p.ken_burns,
        music_path: if music_there {
            p.music_path
        } else {
            None
        },
        music_volume: clamp_int(p.music_volume as int, 0, 200) as i32,
        music_fade: p.music_fade,
    }
}

/// The editor with the photos and settings of a project; the first photo is shown.
/// `facts` tells of each photo whether it is there, `music_there` whether the music is.
pub open spec fn restored(
    v: EditorView,
    p: ProjectView,
    facts: Seq<FactView>,
    music_there: bool,
) -> EditorView {
    let kept = usable(facts);
    let photos = kept_items(p.photos, kept);
    let empty = v.cleared();
    EditorView {
        photos,
        settings: restored_settings(p, music_there),
        looks: LooksView {
            adj: p.adj.clamped_spec(),
            overrides: restored_overrides(p.adj_overrides, photos),
            ..empty.looks
        },
        captions: CaptionsView {
            entries: restored_entries(p.sub_entries, kept),
            style: restored_style(p, v.captions.fonts),
            ..empty.captions
        },
        preview: if photos.len() > 0 {
            (PreviewView { selected: Some(0), ..empty.preview }).dirtied()
        } else {
            empty.preview
        },
        panels: Panels { fps_unsaved: false, ..empty.panels },
        ..empty
    }
}

/// The project file is the current one and the newest of the recent ones.
pub open spec fn named(v: EditorView, path: Seq<char>) -> EditorView {
    EditorView {
        projects: ProjectNamesView {
            recent: remembered(v.projects.recent, path),
            current: Some(path),
        },
        ..v
    }
}

fn usable_flags(facts: &Vec<FileFact>) -> (r: Vec<bool>)
    ensures
        r@ == usable(fact_views(facts@)),
{
    let mut r: Vec<bool> = Vec::new();
    let ghost v = fact_views(facts@);
    let mut i: usize = 0;
    while i < facts.len()
        invariant
            i <= facts.len(),
            v == fact_views(facts@),
            r.len() == i,
            forall|k: int| 0 <= k < i ==> r[k] == #[trigger] usable(v)[k],
        decreases facts.len() - i,
    {
        assert(v[i as int] == facts[i as int]@);
        r.push(facts[i].is_file && is_image(facts[i].name.as_str()));
        i += 1;
    }
    assert(r@ == usable(v));
    r
}

fn keep_texts(items: &Vec<String>, kept: &Vec<bool>) -> (r: Vec<String>)
    requires
        items.len() == kept.len(),
    ensures
        texts(r@) == kept_items(texts(items@), kept@),
{
    let mut r: Vec<String> = Vec::new();
    let ghost v = texts(items@);
    let mut i: usize = 0;
    assert(v.take(0) =~= seq![]);
    assert(texts(r@) =~= seq![]);
    while i < items.len()
        invariant
            i <= items.len(),
            items.len() == kept.len(),
            v == texts(items@),
            texts(r@) == kept_items(v.take(i as int), kept@),
        decreases items.len() - i,
    {
        assert(v[i as int] == items[i as int]@);
        assert(v.take(i + 1).drop_last() =~= v.take(i as int));
        assert(v.take(i + 1).last() == v[i as int]);
        let ghost before = r@;
        if kept[i] {
            r.push(items[i].clone());
            assert(texts(r@) =~= texts(before).push(v[i as int]));
        }
        i += 1;
    }
    assert(v.take(v.len() as int) =~= v);
    r
}

/// Whether the list holds the path, letter for letter.
fn lists(photos: &Vec<String>, path: &String) -> (r: bool)
    ensures
        r == texts(photos@).contains(path@),
{
    let ghost v = texts(photos@);
    let mut i: usize = 0;
    while i < photos.len()
        invariant
            i <= photos.len(),
            v == texts(photos@),
            forall|k: int| 0 <= k < i ==> #[trigger] v[k] != path@,
        decreases photos.len() - i,
    {
        assert(v[i as int] == photos[i as int]@);
        if photos[i] == *path {
            return true;
        }
        i += 1;
    }
    false
}

fn restore_overrides(pairs: &Vec<(String, Adjustments)>, photos: &Vec<String>) -> (r:
    StringHashMap<Adjustments>)
    ensures
        r@ == restored_overrides(pair_views(pairs@), texts(photos@)),
{
    let mut r: StringHashMap<Adjustments> = StringHashMap::new();
    let ghost v = pair_views(pairs@);
    let mut i: usize = 0;
    assert(v.take(0) =~= seq![]);
    while i < pairs.len()
        invariant
            i <= pairs.len(),
            v == pair_views(pairs@),
            r@ == restored_overrides(v.take(i as int), texts(photos@)),
        decreases pairs.len() - i,
    {
        assert(v[i as int] == (pairs[i as int].0@, pairs[i as int].1));
        assert(v.take(i + 1).drop_last() =~= v.take(i as int));
        assert(v.take(i + 1).last() == v[i as int]);
        if lists(photos, &pairs[i].0) {
            r.insert(pairs[i].0.clone(), pairs[i].1.clamped());
        }
        i += 1;
    }
    assert(v.take(v.len() as int) =~= v);
    r
}

/// How many photos are kept up to each place, that place included.
fn kept_counts(kept: &Vec<bool>) -> (r: Vec<usize>)
    ensures
        r.len() == kept.len(),
        forall|k: int| 0 <= k < kept.len() ==> #[trigger] r[k] == count_kept(kept@, k + 1),
        forall|k: int| 0 <= k < kept.len() ==> #[trigger] r[k] <= k + 1,
{
    let mut r: Vec<usize> = Vec::new();
    let mut n: usize = 0;
    let mut i: usize = 0;
    while i < kept.len()
        invariant
            i <= kept.len(),
            r.len() == i,
            n == count_kept(kept@, i as int),
            n <= i,
            forall|k: int| 0 <= k < i ==> #[trigger] r[k] == count_kept(kept@, k + 1),
            forall|k: int| 0 <= k < i ==> #[trigger] r[k] <= k + 1,
        decreases kept.len() - i,
    {
        if kept[i] {
            n += 1;
        }
        r.push(n);
        i += 1;
    }
    r
}

/// How many of the first `k` photos are kept.
fn kept_before(counts: &Vec<usize>, kept: Ghost<Seq<bool>>, k: usize) -> (r: usize)
    requires
        counts.len() == kept@.len(),
        k <= counts.len(),
        forall|k: int| 0 <= k < kept@.len() ==> #[trigger] counts[k] == count_kept(kept@, k + 1),
        forall|k: int| 0 <= k < kept@.len() ==> #[trigger] counts[k] <= k + 1,
    ensures
        r == count_kept(kept@, k as int),
        r <= k,
{
    if k == 0 {
        0
    } else {
        counts[k - 1]
    }
}

fn restore_entry(e: &SubtitleEntry, kept: &Vec<bool>, counts: &Vec<usize>) -> (r: Option<
    SubtitleEntry,
>)
    requires
        counts.len() == kept.len(),
        forall|k: int| 0 <= k < kept.len() ==> #[trigger] counts[k] == count_kept(kept@, k + 1),
        forall|k: int| 0 <= k < kept.len() ==> #[trigger] counts[k] <= k + 1,
    ensures
        match r {
            Some(x) => e@.remapped(kept@) matches Some(m) && x@ == m.in_range(),
            None => e@.remapped(kept@) is None,
        },
{
    let n: usize = kept.len();
    if n == 0 {
        return None;
    }
    let start: usize = if e.start < 1 {
        1
    } else if e.start > n {
        n
    } else {
        e.start
    };
    let end: usize = if e.end < start {
        start
    } else if e.end > n {
        n
    } else {
        e.end
    };
    let mut x = e.clone();
    x.start = kept_before(counts, Ghost(kept@), start - 1) + 1;
    x.end = kept_before(counts, Ghost(kept@), end);
    if x.end < x.start {
        return None;
    }
    x.clamp_values();
    Some(x)
}

fn restore_entries(entries: &Vec<SubtitleEntry>, kept: &Vec<bool>) -> (r: Vec<SubtitleEntry>)
    ensures
        entry_views(r@) == restored_entries(entry_views(entries@), kept@),
{
    let counts = kept_counts(kept);
    let mut r: Vec<SubtitleEntry> = Vec::new();
    let ghost v = entry_views(entries@);
    let mut i: usize = 0;
    assert(v.take(0) =~= seq![]);
    assert(entry_views(r@) =~= seq![]);
    while i < entries.len()
        invariant
            i <= entries.len(),
            v == entry_views(entries@),
            counts.len() == kept.len(),
            forall|k: int| 0 <= k < kept.len() ==> #[trigger] counts[k] == count_kept(kept@, k + 1),
            forall|k: int| 0 <= k < kept.len() ==> #[trigger] counts[k] <= k + 1,
            entry_views(r@) == restored_entries(v.take(i as int), kept@),
        decreases entries.len() - i,
    {
        assert(v[i as int] == entries[i as int]@);
        assert(v.take(i + 1).drop_last() =~= v.take(i as int));
        assert(v.take(i + 1).last() == v[i as int]);
        let ghost before = r@;
        match restore_entry(&entries[i], kept, &counts) {
            Some(e) => {
                r.push(e);
                assert(entry_views(r@) =~= entry_views(before).push(e@));
            },
            None => {},
        }
        i += 1;
    }
    assert(v.take(v.len() as int) =~= v);
    r
}

fn find_font(fonts: &Vec<String>, name: &String) -> (r: usize)
    ensures
        r == (match first_place(texts(fonts@), name@, 0) {
            Some(i) => i as usize,
            None => 0,
        }),
{
    match find_first(fonts, name) {
        Some(i) => i,
        None => 0,
    }
}

fn restore_fps(fps: u32) -> (r: u32)
    ensures
        r == clamp_int(fps as int, 1, 60),
{
    if fps < 1 {
        1
    } else if fps > 60 {
        60
    } else {
        fps
    }
}

fn restore_format(ext: &String) -> (r: OutputFormat)
    ensures
        r == format_named(ext@),
{
    match OutputFormat::from_ext(ext.as_str()) {
        Some(f) => f,
        None => OutputFormat::Mp4,
    }
}

fn restore_transition(id: &String) -> (r: Transition)
    ensures
        r == transition_named(id@),
{
    match Transition::from_id(id.as_str()) {
        Some(t) => t,
        None => Transition::Cut,
    }
}

fn restore_music(path: &Option<String>, there: bool) -> (r: Option<String>)
    ensures
        text_view(r) == (if there {
            text_view(*path)
        } else {
            None
        }),
{
    if there {
        clone_option(path)
    } else {
        None
    }
}

fn restore_settings(p: &ProjectFile, music_there: bool) -> (r: Settings)
    ensures
        r@ == restored_settings(p@, music_there),
{
    Settings {
        fps: restore_fps(p.fps),
        format: restore_format(&p.format),
        resolution: Resolution::from_menu(p.resolution.0, p.resolution.1),
        transition: restore_transition(&p.transition),
        ken_burns: p.ken_burns,
        music_path: restore_music(&p.music_path, music_there),
        music_volume: clamp(p.music_volume, 0, 200),
        music_fade: p.music_fade,
    }
}

fn restore_style(p: &ProjectFile, fonts: &Vec<String>) -> (r: SubtitleStyle)
    ensures
        r == restored_style(p@, texts(fonts@)),
{
    SubtitleStyle {
        font_idx: find_font(fonts, &p.sub_font),
        color: p.sub_color,
        outline_w: clamp(p.sub_outline_w, 0, 8),
        outline_color: p.sub_outline_color,
        boxed: p.sub_boxed,
    }
}

fn collect_overrides(photos: &Vec<String>, overrides: &StringHashMap<Adjustments>) -> (r: Vec<
    (String, Adjustments),
>)
    ensures
        pair_views(r@) == overrides_in_order(texts(photos@), overrides@),
{
    let mut r: Vec<(String, Adjustments)> = Vec::new();
    let ghost v = texts(photos@);
    let mut i: usize = 0;
    assert(v.take(0) =~= seq![]);
    assert(pair_views(r@) =~= seq![]);
    while i < photos.len()
        invariant
            i <= photos.len(),
            v == texts(photos@),
            pair_views(r@) == overrides_in_order(v.take(i as int), overrides@),
        decreases photos.len() - i,
    {
        assert(v[i as int] == photos[i as int]@);
        assert(v.take(i + 1).drop_last() =~= v.take(i as int));
        assert(v.take(i + 1).last() == v[i as int]);
        let ghost before = r@;
        match overrides.get(photos[i].as_str()) {
            Some(a) => {
                let pair = (photos[i].clone(), *a);
                r.push(pair);
                assert(pair_views(r@) =~= pair_views(before).push((v[i as int], *a)));
            },
            None => {},
        }
        i += 1;
    }
    assert(v.take(v.len() as int) =~= v);
    r
}

fn clone_entries(v: &Vec<SubtitleEntry>) -> (r: Vec<SubtitleEntry>)
    ensures
        entry_views(r@) == entry_views(v@),
{
    let mut r: Vec<SubtitleEntry> = Vec::new();
    let mut i: usize = 0;
    while i < v.len()
        invariant
            i <= v.len(),
            r.len() == i,
            forall|k: int| 0 <= k < i ==> (#[trigger] r[k])@ == v[k]@,
        decreases v.len() - i,
    {
        r.push(v[i].clone());
        i += 1;
    }
    assert(entry_views(r@) =~= entry_views(v@));
    r
}

fn clone_option(s: &Option<String>) -> (r: Option<String>)
    ensures
        text_view(r) == text_view(*s),
{
    match s {
        Some(t) => Some(t.clone()),
        None => None,
    }
}

proof fn lemma_restored_overrides(
    pairs: Seq<(Seq<char>, Adjustments)>,
    photos: Seq<Seq<char>>,
)
    ensures
        forall|p: Seq<char>| #[trigger]
            restored_overrides(pairs, photos).contains_key(p) ==> photos.contains(p),
    decreases pairs.len(),
{
    if pairs.len() > 0 {
        let head = restored_overrides(pairs.drop_last(), photos);
        lemma_restored_overrides(pairs.drop_last(), photos);
        assert forall|p: Seq<char>| #[trigger]
            restored_overrides(pairs, photos).contains_key(p) implies photos.contains(p) by {
            if p != pairs.last().0 {
                assert(head.contains_key(p));
            }
        }
    }
}

/// All values are in the ranges of their controls, and the captions cover photos of the
/// list.
pub open spec fn is_settled(v: EditorView) -> bool {
    &&& 1 <= v.settings.fps <= 60
    &&& menu_resolutions().contains(v.settings.resolution)
    &&& 0 <= v.settings.music_volume <= 200
    &&& v.looks.adj.clamped_spec() == v.looks.adj
    &&& forall|p: Seq<char>| #[trigger]
        v.looks.overrides.contains_key(p) ==> v.looks.overrides[p].clamped_spec()
            == v.looks.overrides[p]
    &&& forall|k: int|
        0 <= k < v.captions.entries.len() ==> {
            let e = #[trigger] v.captions.entries[k];
            1 <= e.start <= e.end <= v.photos.len() && e.in_range() == e
        }
    &&& 0 <= v.captions.style.outline_w <= 8
    &&& if v.captions.fonts.len() == 0 {
        v.captions.style.font_idx == 0
    } else {
        &&& v.captions.style.font_idx < v.captions.fonts.len()
        &&& first_place(v.captions.fonts, font_name(v.captions), 0) == Some(
            v.captions.style.font_idx as int,
        )
    }
}

proof fn lemma_all_kept(items: Seq<Seq<char>>, kept: Seq<bool>)
    requires
        items.len() <= kept.len(),
        forall|k: int| 0 <= k < kept.len() ==> kept[k],
    ensures
        kept_items(items, kept) == items,
    decreases items.len(),
{
    if items.len() > 0 {
        lemma_all_kept(items.drop_last(), kept);
        assert(items.drop_last().push(items.last()) =~= items);
    } else {
        assert(kept_items(items, kept) =~= items);
    }
}

proof fn lemma_count_all(kept: Seq<bool>, n: int)
    requires
        0 <= n <= kept.len(),
        forall|k: int| 0 <= k < kept.len() ==> kept[k],
    ensures
        count_kept(kept, n) == n,
    decreases n,
{
    if n > 0 {
        lemma_count_all(kept, n - 1);
    }
}

proof fn lemma_entries_stay(entries: Seq<EntryView>, kept: Seq<bool>)
    requires
        forall|k: int| 0 <= k < kept.len() ==> kept[k],
        forall|k: int|
            0 <= k < entries.len() ==> {
                let e = #[trigger] entries[k];
                1 <= e.start <= e.end <= kept.len() && e.in_range() == e
            },
    ensures
        restored_entries(entries, kept) == entries,
    decreases entries.len(),
{
    if entries.len() > 0 {
        let e = entries.last();
        assert(e == entries[entries.len() - 1]);
        assert forall|k: int| 0 <= k < entries.drop_last().len() implies {
            let e = #[trigger] entries.drop_last()[k];
            1 <= e.start <= e.end <= kept.len() && e.in_range() == e
        } by {
            assert(entries.drop_last()[k] == entries[k]);
        }
        lemma_entries_stay(entries.drop_last(), kept);
        lemma_count_all(kept, e.start - 1);
        lemma_count_all(kept, e.end);
        assert(e.remapped(kept) == Some(e));
        assert(entries.drop_last().push(e) =~= entries);
    } else {
        assert(restored_entries(entries, kept) =~= entries);
    }
}

proof fn lemma_overrides_stay(
    some: Seq<Seq<char>>,
    photos: Seq<Seq<char>>,
    overrides: Map<Seq<char>, Adjustments>,
)
    requires
        forall|k: int| 0 <= k < some.len() ==> photos.contains(#[trigger] some[k]),
        forall|p: Seq<char>| #[trigger]
            overrides.contains_key(p) ==> overrides[p].clamped_spec() == overrides[p],
    ensures
        forall|p: Seq<char>| #[trigger]
            restored_overrides(overrides_in_order(some, overrides), photos).contains_key(p)
                <==> some.contains(p) && overrides.contains_key(p),
        forall|p: Seq<char>|
            restored_overrides(overrides_in_order(some, overrides), photos).contains_key(p)
                ==> #[trigger] restored_overrides(
                overrides_in_order(some, overrides),
                photos,
            )[p] == overrides[p],
    decreases some.len(),
{
    let pairs = overrides_in_order(some, overrides);
    let back = restored_overrides(pairs, photos);
    if some.len() > 0 {
        let head = some.drop_last();
        let last = some.last();
        assert(photos.contains(some[some.len() - 1]));
        assert forall|k: int| 0 <= k < head.len() implies photos.contains(#[trigger] head[k]) by {
            assert(head[k] == some[k]);
        }
        lemma_overrides_stay(head, photos, overrides);
        let before = restored_overrides(overrides_in_order(head, overrides), photos);
        if overrides.contains_key(last) {
            assert(pairs.drop_last() =~= overrides_in_order(head, overrides));
            assert(pairs.last() == (last, overrides[last]));
        }
        assert forall|p: Seq<char>|
            #![trigger back.contains_key(p)]
            #![trigger back[p]]
            {
                &&& back.contains_key(p) <==> some.contains(p) && overrides.contains_key(p)
                &&& back.contains_key(p) ==> back[p] == overrides[p]
            } by {
            assert(before.contains_key(p) <==> head.contains(p) && overrides.contains_key(p));
            assert(some.contains(p) <==> head.contains(p) || p == last) by {
                if head.contains(p) {
                    let k = choose|k: int| 0 <= k < head.len() && head[k] == p;
                    assert(some[k] == p);
                }
                if p == last {
                    assert(some[some.len() - 1] == p);
                }
                if some.contains(p) {
                    let k = choose|k: int| 0 <= k < some.len() && some[k] == p;
                    if k < head.len() {
                        assert(head[k] == p);
                    }
                }
            }
        }
    } else {
        assert(pairs.len() == 0);
    }
}

/// A project that is saved and opened again, with all its files there, has the photos
/// and settings that were saved.
pub proof fn saved_project_reads_back(
    v: EditorView,
    version: Seq<char>,
    now: EditorView,
    facts: Seq<FactView>,
)
    requires
        v.wf(),
        is_settled(v),
        now.captions.fonts == v.captions.fonts,
        facts.len() == v.photos.len(),
        forall|k: int|
            0 <= k < facts.len() ==> (#[trigger] facts[k]).is_file && has_ext(
                facts[k].name,
                image_exts(),
            ),
    ensures
        ({
            let back = restored(now, saved(v, version), facts, true);
            &&& back.photos == v.photos
            &&& back.settings == v.settings
            &&& back.looks.adj == v.looks.adj
            &&& back.looks.overrides == v.looks.overrides
            &&& back.captions.entries == v.captions.entries
            &&& back.captions.style == v.captions.style
        }),
{
    let kept = usable(facts);
    let back = restored(now, saved(v, version), facts, true);
    assert forall|k: int| 0 <= k < kept.len() implies kept[k] by {
        assert(facts[k].is_file);
    }
    lemma_all_kept(v.photos, kept);
    lemma_entries_stay(v.captions.entries, kept);
    lemma_overrides_stay(v.photos, v.photos, v.looks.overrides);
    assert(back.looks.overrides =~= v.looks.overrides);
    format_is_found_by_its_extension(v.settings.format, v.settings.format.ext_spec());
    transition_is_found_by_its_id(v.settings.transition, v.settings.transition.id_spec());
}

proof fn lemma_kept_len(items: Seq<Seq<char>>, kept: Seq<bool>)
    requires
        items.len() <= kept.len(),
    ensures
        kept_items(items, kept).len() == count_kept(kept, items.len() as int),
    decreases items.len(),
{
    if items.len() > 0 {
        lemma_kept_len(items.drop_last(), kept);
    }
}

proof fn lemma_restored_entries_settled(entries: Seq<EntryView>, kept: Seq<bool>)
    ensures
        forall|k: int|
            0 <= k < restored_entries(entries, kept).len() ==> {
                let e = #[trigger] restored_entries(entries, kept)[k];
                1 <= e.start <= e.end <= count_kept(kept, kept.len() as int) && e.in_range() == e
            },
    decreases entries.len(),
{
    if entries.len() > 0 {
        lemma_restored_entries_settled(entries.drop_last(), kept);
        let n = kept.len() as int;
        let start = clamp_int(entries.last().start, 1, n);
        let end = clamp_int(entries.last().end, start, n);
        if n > 0 {
            lemma_count_grows(kept, 0, start - 1);
            lemma_count_grows(kept, end, n);
        }
        let head = restored_entries(entries.drop_last(), kept);
        let all = restored_entries(entries, kept);
        assert forall|k: int| 0 <= k < all.len() implies {
            let e = #[trigger] all[k];
            1 <= e.start <= e.end <= count_kept(kept, n) && e.in_range() == e
        } by {
            if k < head.len() {
                assert(all[k] == head[k]);
            } else {
                let moved = entries.last().remapped(kept).unwrap();
                assert(all[k] == moved.in_range());
                assert(moved.in_range().in_range() == moved.in_range());
            }
        }
    }
}

proof fn lemma_restored_overrides_settled(
    pairs: Seq<(Seq<char>, Adjustments)>,
    photos: Seq<Seq<char>>,
)
    ensures
        forall|p: Seq<char>| #[trigger]
            restored_overrides(pairs, photos).contains_key(p) ==> restored_overrides(
                pairs,
                photos,
            )[p].clamped_spec() == restored_overrides(pairs, photos)[p],
    decreases pairs.len(),
{
    if pairs.len() > 0 {
        let head = restored_overrides(pairs.drop_last(), photos);
        lemma_restored_overrides_settled(pairs.drop_last(), photos);
        let all = restored_overrides(pairs, photos);
        assert forall|p: Seq<char>| #[trigger] all.contains_key(p) implies all[p].clamped_spec()
            == all[p] by {
            if p != pairs.last().0 || !photos.contains(p) {
                assert(head.contains_key(p));
            }
        }
    }
}

/// Whatever a project file holds, after it was opened all values are in their ranges and
/// all captions cover photos of the list. So what is saved then is read back as it is.
pub proof fn opened_project_is_settled(
    v: EditorView,
    p: ProjectView,
    facts: Seq<FactView>,
    music_there: bool,
)
    requires
        facts.len() == p.photos.len(),
        v.captions.fonts.len() <= usize::MAX,
    ensures
        is_settled(restored(v, p, facts, music_there)),
{
    let kept = usable(facts);
    let back = restored(v, p, facts, music_there);
    let fonts = v.captions.fonts;
    lemma_kept_len(p.photos, kept);
    lemma_restored_entries_settled(p.sub_entries, kept);
    lemma_restored_overrides_settled(p.adj_overrides, back.photos);
    assert(menu_resolutions().contains(full_hd())) by {
        assert(menu_resolutions()[1] == full_hd());
    }
    lemma_first_place(fonts, p.sub_font, 0);
    if fonts.len() > 0 {
        lemma_first_place(fonts, font_name(back.captions), 0);
        match first_place(fonts, p.sub_font, 0) {
            Some(i) => {
                assert(fonts[i] == p.sub_font);
            },
            None => {
                assert(font_name(back.captions) == fonts[0]);
            },
        }
    }
}

/// The editor after the photos that are not kept were removed one by one, the last one
/// first.
pub open spec fn removing_missing(v: EditorView, kept: Seq<bool>) -> EditorView
    decreases kept.len(),
{
    if kept.len() == 0 {
        v
    } else if kept.last() {
        removing_missing(v, kept.drop_last())
    } else {
        removing_missing(v.removing(kept.len() - 1), kept.drop_last())
    }
}

proof fn lemma_kept_prefix(items: Seq<Seq<char>>, kept: Seq<bool>)
    requires
        items.len() < kept.len(),
    ensures
        kept_items(items, kept.drop_last()) == kept_items(items, kept),
    decreases items.len(),
{
    if items.len() > 0 {
        lemma_kept_prefix(items.drop_last(), kept);
    }
}

proof fn lemma_photos_left(v: EditorView, kept: Seq<bool>)
    requires
        kept.len() <= v.photos.len(),
    ensures
        removing_missing(v, kept).photos == kept_items(v.photos.take(kept.len() as int), kept)
            + v.photos.skip(kept.len() as int),
    decreases kept.len(),
{
    let k = kept.len() as int;
    let photos = v.photos;
    if k == 0 {
        assert(kept_items(photos.take(0), kept) + photos.skip(0) =~= photos);
    } else {
        let head = kept.drop_last();
        lemma_kept_prefix(photos.take(k - 1), kept);
        assert(photos.take(k).drop_last() =~= photos.take(k - 1));
        assert(photos.take(k).last() == photos[k - 1]);
        if kept.last() {
            lemma_photos_left(v, head);
            assert(kept_items(photos.take(k - 1), kept) + photos.skip(k - 1) =~= kept_items(
                photos.take(k),
                kept,
            ) + photos.skip(k));
        } else {
            lemma_photos_left(v.removing(k - 1), head);
            let rest = photos.remove(k - 1);
            assert(rest.take(k - 1) =~= photos.take(k - 1));
            assert(rest.skip(k - 1) =~= photos.skip(k));
        }
    }
}

/// The captions that are left after the photos that are not kept were removed one by
/// one.
spec fn left_in_turn(entries: Seq<EntryView>, kept: Seq<bool>) -> Seq<EntryView>
    decreases entries.len(),
{
    if entries.len() == 0 {
        seq![]
    } else {
        let head = left_in_turn(entries.drop_last(), kept);
        match removed_in_turn(Some(entries.last()), kept) {
            Some(e) => head.push(e),
            None => head,
        }
    }
}

proof fn lemma_nothing_in_turn(kept: Seq<bool>)
    ensures
        removed_in_turn(None, kept) is None,
    decreases kept.len(),
{
    if kept.len() > 0 {
        lemma_nothing_in_turn(kept.drop_last());
    }
}

proof fn lemma_one_in_turn(entries: Seq<EntryView>, kept: Seq<bool>)
    requires
        kept.len() > 0,
    ensures
        left_in_turn(entries, kept) == left_in_turn(
            if kept.last() {
                entries
            } else {
                after_removal(entries, kept.len() as int)
            },
            kept.drop_last(),
        ),
    decreases entries.len(),
{
    if entries.len() > 0 {
        let n = kept.len() as int;
        let e = entries.last();
        lemma_one_in_turn(entries.drop_last(), kept);
        lemma_nothing_in_turn(kept.drop_last());
        if !kept.last() && e.survives(n) {
            let rest = after_removal(entries, n);
            assert(rest.drop_last() =~= after_removal(entries.drop_last(), n));
            assert(rest.last() == e.shifted(n));
        }
    }
}

proof fn lemma_none_in_turn(entries: Seq<EntryView>, kept: Seq<bool>)
    requires
        kept.len() == 0,
    ensures
        left_in_turn(entries, kept) == entries,
    decreases entries.len(),
{
    if entries.len() > 0 {
        lemma_none_in_turn(entries.drop_last(), kept);
        assert(entries.drop_last().push(entries.last()) =~= entries);
    } else {
        assert(left_in_turn(entries, kept) =~= entries);
    }
}

proof fn lemma_captions_left(v: EditorView, kept: Seq<bool>)
    ensures
        removing_missing(v, kept).captions.entries == left_in_turn(v.captions.entries, kept),
    decreases kept.len(),
{
    if kept.len() == 0 {
        lemma_none_in_turn(v.captions.entries, kept);
    } else {
        lemma_one_in_turn(v.captions.entries, kept);
        if kept.last() {
            lemma_captions_left(v, kept.drop_last());
        } else {
            lemma_captions_left(v.removing(kept.len() - 1), kept.drop_last());
        }
    }
}

/// The captions of a project each cover photos of its list.
pub open spec fn covers_photos(p: ProjectView) -> bool {
    forall|k: int|
        0 <= k < p.sub_entries.len() ==> 1 <= (#[trigger] p.sub_entries[k]).start
            <= p.sub_entries[k].end <= p.photos.len()
}

proof fn lemma_restored_in_turn(entries: Seq<EntryView>, all: Seq<bool>, kept: Seq<bool>)
    requires
        all.len() == kept.len(),
        forall|k: int| 0 <= k < all.len() ==> all[k],
        forall|k: int|
            0 <= k < entries.len() ==> 1 <= (#[trigger] entries[k]).start <= entries[k].end
                <= kept.len(),
    ensures
        left_in_turn(restored_entries(entries, all), kept) == restored_entries(entries, kept),
    decreases entries.len(),
{
    if entries.len() > 0 {
        let head = entries.drop_last();
        let e = entries.last();
        assert(e == entries[entries.len() - 1]);
        assert forall|k: int| 0 <= k < head.len() implies 1 <= (#[trigger] head[k]).start
            <= head[k].end <= kept.len() by {
            assert(head[k] == entries[k]);
        }
        lemma_restored_in_turn(head, all, kept);
        lemma_count_all(all, e.start - 1);
        lemma_count_all(all, e.end);
        assert(e.remapped(all) == Some(e));
        let whole = restored_entries(entries, all);
        assert(whole.drop_last() =~= restored_entries(head, all));
        assert(whole.last() == e.in_range());
        restoring_is_removing_in_turn(e.in_range(), kept);
        match e.remapped(kept) {
            Some(m) => {
                assert(e.in_range().remapped(kept) == Some(m.in_range()));
            },
            None => {
                assert(e.in_range().remapped(kept) is None);
            },
        }
    }
}

/// Opening a project of which photos are missing gives the photos and captions that
/// opening it with all files there and removing the missing photos one by one gives.
/// `there` are the files with all photos there, `facts` as they are.
pub proof fn opening_is_removing_what_is_missing(
    v: EditorView,
    p: ProjectView,
    there: Seq<FactView>,
    facts: Seq<FactView>,
    music_there: bool,
)
    requires
        covers_photos(p),
        there.len() == p.photos.len(),
        facts.len() == p.photos.len(),
        forall|k: int| 0 <= k < there.len() ==> usable(there)[k],
    ensures
        ({
            let kept = usable(facts);
            let one_by_one = removing_missing(restored(v, p, there, music_there), kept);
            let opened = restored(v, p, facts, music_there);
            &&& opened.photos == kept_items(p.photos, kept)
            &&& opened.photos == one_by_one.photos
            &&& opened.captions.entries == one_by_one.captions.entries
        }),
{
    let all = usable(there);
    let kept = usable(facts);
    let whole = restored(v, p, there, music_there);
    lemma_all_kept(p.photos, all);
    lemma_photos_left(whole, kept);
    assert(p.photos.take(kept.len() as int) =~= p.photos);
    assert(kept_items(p.photos, kept) + p.photos.skip(kept.len() as int) =~= kept_items(
        p.photos,
        kept,
    ));
    lemma_captions_left(whole, kept);
    lemma_restored_in_turn(p.sub_entries, all, kept);
}

/// An opened project leaves the editor sound.
pub proof fn restored_editor_is_sound(
    v: EditorView,
    p: ProjectView,
    facts: Seq<FactView>,
    music_there: bool,
)
    ensures
        restored(v, p, facts, music_there).wf(),
{
    lemma_restored_overrides(p.adj_overrides, kept_items(p.photos, usable(facts)));
}

impl Editor {
    /// What is saved of the editor.
    pub fn project_data(&self, version: &str) -> (r: ProjectFile)
        ensures
            r@ == saved(self@, version@),
    {
        let style = self.captions.style;
        let font: String = if style.font_idx < self.captions.fonts.len() {
            assert(texts(self.captions.fonts@)[style.font_idx as int]
                == self.captions.fonts[style.font_idx as int]@);
            self.captions.fonts[style.font_idx].clone()
        } else {
            String::new()
        };
        assert(font@ =~= font_name(self@.captions));
        ProjectFile {
            version: 1,
            app_version: version.to_owned(),
            photos: clone_texts(&self.photos),
            fps: self.settings.fps,
            format: self.settings.format.ext().to_owned(),
            resolution: (self.settings.resolution.w, self.settings.resolution.h),
            adj: self.looks.adj,
            adj_overrides: collect_overrides(&self.photos, &self.looks.overrides),
            sub_entries: clone_entries(&self.captions.entries),
            sub_font: font,
            sub_color: style.color,
            sub_outline_w: style.outline_w,
            sub_outline_color: style.outline_color,
            sub_boxed: style.boxed,
            transition: self.settings.transition.id().to_owned(),
            ken_burns: self.settings.ken_burns,
            music_path: clone_option(&self.settings.music_path),
            music_volume: self.settings.music_volume,
            music_fade: self.settings.music_fade,
        }
    }

    /// The project file becomes the current one and the newest of the recent ones.
    pub fn name_project(&mut self, path: &str)
        ensures
            final(self)@ == named(old(self)@, path@),
    {
        remember_recent_project(&mut self.projects.recent, path);
        self.projects.current = Some(path.to_owned());
    }

    /// A project file that cannot be opened leaves the recent ones.
    pub fn forget_project(&mut self, path: &str)
        ensures
            final(self)@ == (EditorView {
                projects: ProjectNamesView {
                    recent: without(old(self)@.projects.recent, path@),
                    ..old(self)@.projects
                },
                ..old(self)@
            }),
    {
        forget_recent_project(&mut self.projects.recent, path);
    }

    /// Opens a project that was read from `path`: its photos and settings take the place
    /// of the present ones. Photos that are not there or are no images are left out, and
    /// so is music that is not there. The result is the number of photos left out.
    pub fn load_project(
        &mut self,
        path: &str,
        project: &ProjectFile,
        facts: &Vec<FileFact>,
        music_there: bool,
        jobs: &mut Vec<String>,
    ) -> (r: usize)
        requires
            facts.len() == project.photos.len(),
        ensures
            final(self)@ == restored(
                named(old(self)@, path@),
                project@,
                fact_views(facts@),
                music_there,
            ),
            final(self)@.wf(),
            r == facts.len() - count_kept(usable(fact_views(facts@)), facts.len() as int),
            final(jobs)@.len() == 0,
    {
        proof {
            restored_editor_is_sound(
                named(self@, path@),
                project@,
                fact_views(facts@),
                music_there,
            );
        }
        self.name_project(path);
        self.clear_photos(jobs);
        let kept = usable_flags(facts);
        self.photos = keep_texts(&project.photos, &kept);
        self.settings = restore_settings(project, music_there);
        self.looks.adj = project.adj.clamped();
        self.looks.overrides = restore_overrides(&project.adj_overrides, &self.photos);
        self.captions.entries = restore_entries(&project.sub_entries, &kept);
        self.captions.style = restore_style(project, &self.captions.fonts);
        self.panels.fps_unsaved = false;
        if self.photos.len() > 0 {
            self.preview.selected = Some(0);
            self.preview.mark_dirty();
        }
        let counts = kept_counts(&kept);
        kept.len() - kept_before(&counts, Ghost(kept@), kept.len())
    }
}

/// What is told after a project was opened with files missing, if any.
pub open spec fn missing_text(photos: nat, music: bool) -> Option<Seq<char>> {
    let about_photos = "有 "@ + dec(photos)
        + " 張照片已不在原路徑（或不是支援的圖片檔），已從清單移除。"@;
    let about_music = "背景音樂檔已不在原路徑，已清除音樂設定。"@;
    if photos > 0 && music {
        Some(about_photos + "\n"@ + about_music)
    } else if photos > 0 {
        Some(about_photos)
    } else if music {
        Some(about_music)
    } else {
        None
    }
}

/// What is told after a project was opened with files missing, if any.
pub fn missing_notice(photos: usize, music: bool) -> (r: Option<String>)
    ensures
        text_view(r) == missing_text(photos as nat, music),
{
    if photos == 0 && !music {
        return None;
    }
    let mut r: String = String::new();
    if photos > 0 {
        r.append("有 ");
        push_dec(&mut r, photos as u128);
        r.append(" 張照片已不在原路徑（或不是支援的圖片檔），已從清單移除。");
        assert(r@ =~= "有 "@ + dec(photos as nat)
            + " 張照片已不在原路徑（或不是支援的圖片檔），已從清單移除。"@);
        if music {
            r.append("\n");
        }
    }
    if music {
        r.append("背景音樂檔已不在原路徑，已清除音樂設定。");
        if photos == 0 {
            assert(r@ =~= "背景音樂檔已不在原路徑，已清除音樂設定。"@);
        }
    }
    Some(r)
}

/// The title of the window: the name of the project without its extension, if there is
/// one.
pub open spec fn title_text(project: Option<Seq<char>>) -> Seq<char> {
    match project {
        Some(name) => stem_of(name) + " — Photo2Video"@,
        None => "Photo2Video — 照片轉影片"@,
    }
}

/// The title of the window, for the file name of the current project.
pub fn window_title(project: Option<&str>) -> (r: String)
    ensures
        r@ == title_text(
            match project {
                Some(name) => Some(name@),
                None => None,
            },
        ),
{
    match project {
        Some(name) => {
            let mut r = stem(name);
            r.append(" — Photo2Video");
            r
        },
        None => "Photo2Video — 照片轉影片".to_owned(),
    }
}

/// The name that is offered for a video: that of the project, with the extension of the
/// format.
pub fn offered_video_name(project: Option<&str>, format: OutputFormat) -> (r: String)
    ensures
        r@ == (match project {
            Some(name) => stem_of(name@),
            None => "output"@,
        }) + "."@ + format.ext_spec(),
{
    let mut r: String = match project {
        Some(name) => stem(name),
        None => "output".to_owned(),
    };
    r.append(".");
    r.append(format.ext());
    r
}

/// The name that is offered for a project file: that of the current one.
pub fn offered_project_name(project: Option<&str>) -> (r: String)
    ensures
        r@ == (match project {
            Some(name) => name@,
            None => "我的專案.p2v"@,
        }),
{
    match project {
        Some(name) => name.to_owned(),
        None => "我的專案.p2v".to_owned(),
    }
}

} // verus!
