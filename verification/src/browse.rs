//! The state of the interface, and which media files the browser lists.

use vstd::prelude::*;

use crate::clip::{duration_part, opt_part, resolution_part, tag_part};
use crate::ids::{ClipId, TimelineClipId};
use crate::order::{
    in_order, is_permutation, is_stable_order, key_views, lemma_listed_antisymmetric, stable_order,
    Key, KeyView,
};
use crate::project::{ProjectState, TrimState};
use crate::selection::Selection;
use crate::tag::Tag;
use crate::text::{
    all_white, chars_of, find_in, lemma_white_has_no_words, lemma_words_parted, lowercase, occurs,
    occurs_at, split_words, to_lower, views, words,
};

verus! {

broadcast use vstd::std_specs::hash::group_hash_axioms;

/// What the browser sorts by.
#[derive(Debug, Clone, Copy, PartialEq, Eq, Structural)]
pub enum SortMode {
    ImportOrder,
    Name,
    Duration,
    Resolution,
    FileType,
}

impl SortMode {
    /// The name of the order.
    pub open spec fn text(self) -> Seq<char> {
        match self {
            SortMode::ImportOrder => "Import Order"@,
            SortMode::Name => "Name"@,
            SortMode::Duration => "Duration"@,
            SortMode::Resolution => "Resolution"@,
            SortMode::FileType => "File Type"@,
        }
    }

    /// All orders, as they are offered.
    pub fn all() -> (r: [SortMode; 5])
        ensures
            r@ == seq![
                SortMode::ImportOrder,
                SortMode::Name,
                SortMode::Duration,
                SortMode::Resolution,
                SortMode::FileType,
            ],
    {
        let r = [
            SortMode::ImportOrder,
            SortMode::Name,
            SortMode::Duration,
            SortMode::Resolution,
            SortMode::FileType,
        ];
        assert(r@ =~= seq![
            SortMode::ImportOrder,
            SortMode::Name,
            SortMode::Duration,
            SortMode::Resolution,
            SortMode::FileType,
        ]);
        r
    }

    /// The name of the order.
    pub fn label(self) -> (r: &'static str)
        ensures
            r@ == self.text(),
    {
        match self {
            SortMode::ImportOrder => "Import Order",
            SortMode::Name => "Name",
            SortMode::Duration => "Duration",
            SortMode::Resolution => "Resolution",
            SortMode::FileType => "File Type",
        }
    }
}

/// The state of the browser panel. Points in time are in nanoseconds, places along
/// a thumbnail in millionths.
#[derive(Debug)]
pub struct BrowserUiState {
    pub search_query: String,
    pub starred_only: bool,
    pub tag_filter_mask: u32,
    pub sort_mode: SortMode,
    pub sort_ascending: bool,
    pub renaming_clip: Option<ClipId>,
    pub rename_buffer: String,
    pub visible_clips: Vec<ClipId>,
    pub hover_active_clip: Option<ClipId>,
    pub hover_started_at: Option<i64>,
    pub hovered_scrub_t: Option<i64>,
}

impl BrowserUiState {
    /// No filter, in the order of import.
    pub open spec fn is_initial(self) -> bool {
        &&& self.search_query@ == Seq::<char>::empty()
        &&& !self.starred_only
        &&& self.tag_filter_mask == 0
        &&& self.sort_mode == SortMode::ImportOrder
        &&& self.sort_ascending
        &&& self.renaming_clip is None
        &&& self.rename_buffer@ == Seq::<char>::empty()
        &&& self.visible_clips@ == Seq::<ClipId>::empty()
        &&& self.hover_active_clip is None
        &&& self.hover_started_at is None
        &&& self.hovered_scrub_t is None
    }
}

impl Default for BrowserUiState {
    fn default() -> (r: Self)
        ensures
            r.is_initial(),
    {
        BrowserUiState {
            search_query: String::new(),
            starred_only: false,
            tag_filter_mask: 0,
            sort_mode: SortMode::ImportOrder,
            sort_ascending: true,
            renaming_clip: None,
            rename_buffer: String::new(),
            visible_clips: Vec::new(),
            hover_active_clip: None,
            hover_started_at: None,
            hovered_scrub_t: None,
        }
    }
}

/// The state of the timeline panel. Lengths are in thousandths of a pixel, the zoom
/// in thousandths of a pixel per second.
#[derive(Debug, Clone, Copy)]
pub struct TimelineUiState {
    pub zoom: i64,
    pub scroll_offset: i64,
    pub vertical_scroll_offset: i64,
    pub scrubbing: Option<i64>,
    pub dragging_clip: Option<TimelineClipId>,
    pub drag_grab_offset: Option<i64>,
    pub trimming_clip: Option<TrimState>,
}

/// One hundred pixels per second.
pub const DEFAULT_ZOOM: i64 = 100_000;

impl Default for TimelineUiState {
    fn default() -> (r: Self)
        ensures
            r == (TimelineUiState {
                zoom: DEFAULT_ZOOM,
                scroll_offset: 0,
                vertical_scroll_offset: 0,
                scrubbing: None,
                dragging_clip: None,
                drag_grab_offset: None,
                trimming_clip: None,
            }),
    {
        TimelineUiState {
            zoom: DEFAULT_ZOOM,
            scroll_offset: 0,
            vertical_scroll_offset: 0,
            scrubbing: None,
            dragging_clip: None,
            drag_grab_offset: None,
            trimming_clip: None,
        }
    }
}

/// What the diagnostics overlay shows. Frame rates are in thousandths.
#[derive(Debug, Clone, Copy)]
pub struct DebugUiState {
    pub show_fps: bool,
    pub ui_fps: u128,
    pub video_fps: u128,
}

impl Default for DebugUiState {
    fn default() -> (r: Self)
        ensures
            r == (DebugUiState { show_fps: false, ui_fps: 0, video_fps: 0 }),
    {
        DebugUiState { show_fps: false, ui_fps: 0, video_fps: 0 }
    }
}

/// The state of the interface.
#[derive(Debug)]
pub struct UiState {
    pub browser: BrowserUiState,
    pub timeline: TimelineUiState,
    pub debug: DebugUiState,
    pub selection: Selection,
}

impl UiState {
    /// No filter, the timeline unscrolled, nothing dragged or selected, and no overlay.
    pub open spec fn is_initial(self) -> bool {
        &&& self.browser.is_initial()
        &&& self.timeline == TimelineUiState {
            zoom: DEFAULT_ZOOM,
            scroll_offset: 0,
            vertical_scroll_offset: 0,
            scrubbing: None,
            dragging_clip: None,
            drag_grab_offset: None,
            trimming_clip: None,
        }
        &&& self.debug == DebugUiState { show_fps: false, ui_fps: 0, video_fps: 0 }
        &&& self.selection.selected_clips@ == Set::<u128>::empty()
        &&& self.selection.last_selected_clip is None
        &&& self.selection.hovered_clip is None
        &&& self.selection.selected_scrub_t is None
        &&& self.selection.selected_timeline_clips@ == Set::<u128>::empty()
    }
}

impl Default for UiState {
    fn default() -> (r: Self)
        ensures
            r.is_initial(),
    {
        UiState {
            browser: BrowserUiState::default(),
            timeline: TimelineUiState::default(),
            debug: DebugUiState::default(),
            selection: Selection::default(),
        }
    }
}

/// The project and the interface.
#[derive(Debug)]
pub struct AppState {
    pub project: ProjectState,
    pub ui: UiState,
}

impl Default for AppState {
    fn default() -> (r: Self)
        ensures
            r.project.is_initial(),
            r.ui.is_initial(),
    {
        AppState { project: ProjectState::default(), ui: UiState::default() }
    }
}

/// Every word stands somewhere in `hay`.
pub open spec fn holds_all(hay: Seq<char>, tokens: Seq<Seq<char>>) -> bool {
    forall|i: int| 0 <= i < tokens.len() ==> occurs(hay, #[trigger] tokens[i])
}

/// `m` picks the items of `part` out of `whole`, in their order.
pub open spec fn picks(part: Seq<ClipId>, whole: Seq<ClipId>, m: Seq<int>) -> bool {
    &&& m.len() == part.len()
    &&& forall|i: int| 0 <= i < m.len() ==> 0 <= #[trigger] m[i] < whole.len()
    &&& forall|i: int| 0 <= i < m.len() ==> part[i] == whole[#[trigger] m[i]]
    &&& forall|i: int, j: int| 0 <= i < j < m.len() ==> #[trigger] m[i] < #[trigger] m[j]
}

/// All items of `part` are in `whole`, in the same order.
pub open spec fn is_sublist(part: Seq<ClipId>, whole: Seq<ClipId>) -> bool {
    exists|m: Seq<int>| picks(part, whole, m)
}

/// The two states list the same files but for what is searched for.
pub open spec fn same_but_search(a: AppState, b: AppState) -> bool {
    &&& b.project == a.project
    &&& b.ui.browser.starred_only == a.ui.browser.starred_only
    &&& b.ui.browser.tag_filter_mask == a.ui.browser.tag_filter_mask
    &&& b.ui.browser.sort_mode == a.ui.browser.sort_mode
    &&& b.ui.browser.sort_ascending == a.ui.browser.sort_ascending
}

/// `b` searches for what `a` searches for, and, behind a space, for `extra`.
pub open spec fn searches_more(a: AppState, b: AppState, extra: Seq<char>) -> bool {
    &&& same_but_search(a, b)
    &&& b.ui.browser.search_query@ == a.ui.browser.search_query@ + seq![' '] + extra
}

impl AppState {
    /// The words that are searched for.
    pub open spec fn search_words(self) -> Seq<Seq<char>> {
        words(lowercase(self.ui.browser.search_query@))
    }

    /// The media file passes the filters.
    pub open spec fn accepts(self, id: ClipId) -> bool {
        let b = self.ui.browser;
        &&& b.starred_only ==> self.project.starred@.contains(id.0)
        &&& b.tag_filter_mask != 0 ==> self.project.tags(id) & b.tag_filter_mask != 0
        &&& self.search_words().len() > 0 ==> (self.project.known(id) matches Some(c)
            && holds_all(c.search_haystack@, self.search_words()))
    }

    /// The media files of `order` that pass the filters, in that order.
    pub open spec fn accepted(self, order: Seq<ClipId>) -> Seq<ClipId>
        decreases order.len(),
    {
        if order.len() == 0 {
            Seq::empty()
        } else if self.accepts(order.last()) {
            self.accepted(order.drop_last()).push(order.last())
        } else {
            self.accepted(order.drop_last())
        }
    }

    /// What the media file is sorted by.
    pub open spec fn sort_key(self, id: ClipId) -> KeyView {
        let c = self.project.known(id);
        match self.ui.browser.sort_mode {
            SortMode::ImportOrder => KeyView::Number(0),
            SortMode::Name => KeyView::Text(
                lowercase(
                    match c {
                        Some(c) => c.shown_name(),
                        None => Seq::empty(),
                    },
                ),
            ),
            SortMode::Duration => KeyView::Number(
                match self.project.known_duration(id) {
                    Some(d) => d as int,
                    None => 0,
                },
            ),
            SortMode::Resolution => KeyView::Number(
                match c {
                    Some(c) => match c.resolution {
                        Some((w, h)) => w * h,
                        None => 0,
                    },
                    None => 0,
                },
            ),
            SortMode::FileType => KeyView::Text(
                lowercase(
                    match c {
                        Some(c) => c.path.ext(),
                        None => Seq::empty(),
                    },
                ),
            ),
        }
    }

    /// The keys of some media files.
    pub open spec fn sort_keys(self, ids: Seq<ClipId>) -> Seq<KeyView> {
        Seq::new(ids.len(), |i: int| self.sort_key(ids[i]))
    }

    /// `listed` are the accepted media files in the chosen order.
    pub open spec fn lists(self, listed: Seq<ClipId>) -> bool {
        let base = self.accepted(self.project.clip_order@);
        let ascending = self.ui.browser.sort_ascending;
        if self.ui.browser.sort_mode == SortMode::ImportOrder {
            listed == if ascending {
                base
            } else {
                base.reverse()
            }
        } else {
            exists|order: Seq<usize>| #[trigger]
                is_stable_order(self.sort_keys(base), order, ascending) && listed == arranged(
                    base,
                    order,
                )
        }
    }

    /// The media files that the browser lists: those that pass the filters, in the
    /// chosen order. A search for more narrows what was listed before, in the same order;
    /// where no more than white space is added, nothing changes.
    pub fn filtered_clips(&self) -> (r: Vec<ClipId>)
        ensures
            self.lists(r@),
            forall|s: AppState, extra: Seq<char>, wide: Seq<ClipId>|
                #![trigger searches_more(s, *self, extra), s.lists(wide)]
                searches_more(s, *self, extra) && s.lists(wide) ==> is_sublist(r@, wide) && (
                all_white(extra) ==> r@ == wide),
    {
        let query = to_lower(self.ui.browser.search_query.as_str());
        let listed = self.list_clips(&query);
        assert forall|s: AppState, extra: Seq<char>, wide: Seq<ClipId>|
            #![trigger searches_more(s, *self, extra), s.lists(wide)]
            searches_more(s, *self, extra) && s.lists(wide) implies is_sublist(listed@, wide) && (
        all_white(extra) ==> listed@ == wide) by {
            let first = s.ui.browser.search_query@;
            let more = words(lowercase(extra));
            assert(query@ == lowercase(first) + seq![' '] + lowercase(extra));
            lemma_words_parted(lowercase(first), ' ', lowercase(extra));
            law_more_words_only_narrow(s, *self, more, wide, listed@);
            if all_white(extra) {
                let end = seq![' '] + extra;
                assert(self.ui.browser.search_query@ =~= first + end);
                assert(all_white(end)) by {
                    assert forall|i: int| 0 <= i < end.len() implies crate::text::white(
                        #[trigger] end[i],
                    ) by {
                        if i > 0 {
                            assert(end[i] == extra[i - 1]);
                        }
                    }
                }
                assert(query@ == lowercase(first) + end);
                assert(lowercase(first) + end =~= lowercase(first) + seq![' '] + extra);
                lemma_words_parted(lowercase(first), ' ', extra);
                lemma_white_has_no_words(extra);
                assert(self.search_words() =~= s.search_words() + Seq::<Seq<char>>::empty());
                law_more_words_only_narrow(s, *self, Seq::empty(), wide, listed@);
            }
        }
        listed
    }

    fn list_clips(&self, query: &String) -> (r: Vec<ClipId>)
        requires
            query@ == lowercase(self.ui.browser.search_query@),
        ensures
            self.lists(r@),
    {
        let tokens = split_words(query.as_str());
        let order = &self.project.clip_order;
        let mut base: Vec<ClipId> = Vec::new();
        let mut i: usize = 0;
        while i < order.len()
            invariant
                order@ == self.project.clip_order@,
                i <= order.len(),
                views(tokens@) == self.search_words(),
                base@ == self.accepted(order@.take(i as int)),
            decreases order.len() - i,
        {
            assert(order@.take(i + 1).drop_last() =~= order@.take(i as int));
            if self.accept(order[i], &tokens) {
                base.push(order[i]);
            }
            i += 1;
        }
        assert(order@.take(i as int) =~= order@);
        let ascending = self.ui.browser.sort_ascending;
        if self.ui.browser.sort_mode == SortMode::ImportOrder {
            if ascending {
                return base;
            }
            return reversed(&base);
        }
        let mut keys: Vec<Key> = Vec::new();
        let mut j: usize = 0;
        while j < base.len()
            invariant
                j <= base.len(),
                keys.len() == j,
                forall|k: int| 0 <= k < j ==> (#[trigger] keys[k])@ == self.sort_key(base[k]),
            decreases base.len() - j,
        {
            keys.push(self.key_for(base[j]));
            j += 1;
        }
        assert(key_views(keys@) =~= self.sort_keys(base@));
        let places = stable_order(&keys, ascending);
        arrange(&base, &places)
    }

    fn accept(&self, id: ClipId, tokens: &Vec<Vec<char>>) -> (r: bool)
        requires
            views(tokens@) == self.search_words(),
        ensures
            r == self.accepts(id),
    {
        assert(tokens.len() == self.search_words().len());
        if self.ui.browser.starred_only && !self.project.starred.contains(&id.0) {
            return false;
        }
        if self.ui.browser.tag_filter_mask != 0 {
            let mask: u32 = self.project.clip_tag_mask(id);
            if (mask & self.ui.browser.tag_filter_mask) == 0 {
                return false;
            }
        }
        if tokens.len() == 0 {
            return true;
        }
        match self.project.clips.get(&id.0) {
            None => false,
            Some(clip) => {
                let hay = chars_of(clip.search_haystack.as_str());
                let mut i: usize = 0;
                while i < tokens.len()
                    invariant
                        i <= tokens.len(),
                        views(tokens@) == self.search_words(),
                        hay@ == clip.search_haystack@,
                        self.project.known(id) == Some(*clip),
                        forall|k: int| 0 <= k < i ==> occurs(hay@, #[trigger] self.search_words()[k]),
                    decreases tokens.len() - i,
                {
                    assert(tokens[i as int]@ == self.search_words()[i as int]);
                    if !find_in(&hay, &tokens[i]) {
                        return false;
                    }
                    i += 1;
                }
                true
            },
        }
    }

    fn key_for(&self, id: ClipId) -> (r: Key)
        ensures
            r@ == self.sort_key(id),
    {
        let clip = self.project.clips.get(&id.0);
        match self.ui.browser.sort_mode {
            SortMode::ImportOrder => Key::Number(0),
            SortMode::Name => {
                let name = match clip {
                    Some(c) => c.display_name(),
                    None => empty_text(),
                };
                Key::Text(chars_of(to_lower(name).as_str()))
            },
            SortMode::Duration => {
                let d: i64 = match clip {
                    Some(c) => match c.duration {
                        Some(d) => d,
                        None => 0,
                    },
                    None => 0,
                };
                Key::Number(d as i128)
            },
            SortMode::Resolution => match clip {
                Some(c) => match c.resolution {
                    Some((w, h)) => {
                        assert(0 <= w * h <= 0xffff_ffff * 0xffff_ffff) by (nonlinear_arith)
                            requires
                                0 <= w <= 0xffff_ffff,
                                0 <= h <= 0xffff_ffff,
                        ;
                        Key::Number(w as i128 * h as i128)
                    },
                    None => Key::Number(0),
                },
                None => Key::Number(0),
            },
            SortMode::FileType => {
                let ext = match clip {
                    Some(c) => c.extension(),
                    None => empty_text(),
                };
                Key::Text(chars_of(to_lower(ext).as_str()))
            },
        }
    }
}

/// The items of `base` in the order of the places.
pub open spec fn arranged(base: Seq<ClipId>, order: Seq<usize>) -> Seq<ClipId> {
    Seq::new(order.len(), |i: int| base[order[i] as int])
}

fn empty_text() -> (r: &'static str)
    ensures
        r@ == Seq::<char>::empty(),
{
    proof {
        reveal_strlit("");
        assert(""@ =~= Seq::<char>::empty());
    }
    ""
}

fn reversed(base: &Vec<ClipId>) -> (r: Vec<ClipId>)
    ensures
        r@ == base@.reverse(),
{
    let mut out: Vec<ClipId> = Vec::new();
    let mut i: usize = base.len();
    while i > 0
        invariant
            i <= base.len(),
            out.len() == base.len() - i,
            forall|k: int| 0 <= k < out.len() ==> out[k] == base[base.len() - 1 - k],
        decreases i,
    {
        i -= 1;
        out.push(base[i]);
    }
    assert(out@ =~= base@.reverse());
    out
}

fn arrange(base: &Vec<ClipId>, order: &Vec<usize>) -> (r: Vec<ClipId>)
    requires
        forall|i: int| 0 <= i < order.len() ==> (#[trigger] order[i]) < base.len(),
    ensures
        r@ == arranged(base@, order@),
{
    let mut out: Vec<ClipId> = Vec::new();
    let mut i: usize = 0;
    while i < order.len()
        invariant
            i <= order.len(),
            out.len() == i,
            forall|i: int| 0 <= i < order.len() ==> (#[trigger] order[i]) < base.len(),
            forall|k: int| 0 <= k < i ==> out[k] == base[order[k] as int],
        decreases order.len() - i,
    {
        out.push(base[order[i]]);
        i += 1;
    }
    assert(out@ =~= arranged(base@, order@));
    out
}

proof fn lemma_accepted(s: AppState, order: Seq<ClipId>, id: ClipId)
    ensures
        s.accepted(order).contains(id) <==> order.contains(id) && s.accepts(id),
    decreases order.len(),
{
    if order.len() > 0 {
        let init = order.drop_last();
        let last = order.last();
        let base = s.accepted(init);
        let all = s.accepted(order);
        lemma_accepted(s, init, id);
        assert(order.contains(id) <==> init.contains(id) || id == last) by {
            if order.contains(id) {
                let i = choose|i: int| 0 <= i < order.len() && order[i] == id;
                if i < init.len() {
                    assert(init[i] == id);
                }
            }
            if init.contains(id) {
                let i = choose|i: int| 0 <= i < init.len() && init[i] == id;
                assert(order[i] == id);
            }
            assert(order[order.len() - 1] == last);
        }
        if s.accepts(last) {
            assert(all.contains(id) <==> base.contains(id) || id == last) by {
                if all.contains(id) {
                    let i = choose|i: int| 0 <= i < all.len() && all[i] == id;
                    if i < base.len() {
                        assert(base[i] == id);
                    }
                }
                if base.contains(id) {
                    let i = choose|i: int| 0 <= i < base.len() && base[i] == id;
                    assert(all[i] == id);
                }
                assert(all[all.len() - 1] == last);
            }
        }
    }
}

proof fn lemma_every_place_listed(order: Seq<usize>, n: nat, k: int)
    requires
        is_permutation(order, n),
        0 <= k < n,
    ensures
        exists|i: int| 0 <= i < n && #[trigger] order[i] == k,
{
    let s = order.map_values(|x: usize| x as int);
    assert(s.no_duplicates()) by {
        assert forall|i: int, j: int| 0 <= i < s.len() && 0 <= j < s.len() && i != j implies s[i]
            != s[j] by {
            assert(s[i] == order[i] && s[j] == order[j]);
            if i < j {
                assert(order[i] != order[j]);
            } else {
                assert(order[j] != order[i]);
            }
        }
    }
    s.unique_seq_to_set();
    let all = vstd::set_lib::set_int_range(0, n as int);
    vstd::set_lib::lemma_int_range(0, n as int);
    assert(s.to_set().subset_of(all)) by {
        assert forall|x: int| s.to_set().contains(x) implies all.contains(x) by {
            let i = choose|i: int| 0 <= i < s.len() && s[i] == x;
            assert(order[i] < n);
        }
    }
    vstd::set_lib::lemma_subset_equality(s.to_set(), all);
    assert(s.to_set().contains(k));
    let i = choose|i: int| 0 <= i < s.len() && s[i] == k;
    assert(order[i] == k);
}

/// The browser lists a media file exactly where it is in the project and passes the
/// filters, whatever the order.
pub proof fn law_listed_pass_filters(s: AppState, listed: Seq<ClipId>, id: ClipId)
    requires
        s.lists(listed),
    ensures
        listed.contains(id) <==> s.project.clip_order@.contains(id) && s.accepts(id),
        listed.len() == s.accepted(s.project.clip_order@).len(),
{
    let base = s.accepted(s.project.clip_order@);
    let ascending = s.ui.browser.sort_ascending;
    lemma_accepted(s, s.project.clip_order@, id);
    assert(listed.contains(id) <==> base.contains(id)) by {
        if s.ui.browser.sort_mode == SortMode::ImportOrder {
            if !ascending {
                let back = base.reverse();
                if base.contains(id) {
                    let i = choose|i: int| 0 <= i < base.len() && base[i] == id;
                    assert(back[base.len() - 1 - i] == id);
                }
                if back.contains(id) {
                    let i = choose|i: int| 0 <= i < back.len() && back[i] == id;
                    assert(base[base.len() - 1 - i] == id);
                }
            }
        } else {
            let order = choose|order: Seq<usize>| #[trigger]
                is_stable_order(s.sort_keys(base), order, ascending) && listed == arranged(
                    base,
                    order,
                );
            if listed.contains(id) {
                let i = choose|i: int| 0 <= i < listed.len() && listed[i] == id;
                assert(order[i] < base.len());
                assert(base[order[i] as int] == id);
            }
            if base.contains(id) {
                let k = choose|k: int| 0 <= k < base.len() && base[k] == id;
                lemma_every_place_listed(order, base.len(), k);
                let i = choose|i: int| 0 <= i < base.len() && #[trigger] order[i] == k;
                assert(listed[i] == id);
            }
        }
    }
}

/// Without a filter and a search the browser lists all media files.
pub proof fn law_no_filter_lists_all(s: AppState, order: Seq<ClipId>)
    requires
        !s.ui.browser.starred_only,
        s.ui.browser.tag_filter_mask == 0,
        s.search_words().len() == 0,
    ensures
        s.accepted(order) == order,
    decreases order.len(),
{
    if order.len() > 0 {
        law_no_filter_lists_all(s, order.drop_last());
        assert(s.accepted(order) =~= order);
    } else {
        assert(s.accepted(order) =~= order);
    }
}

proof fn lemma_accepts_less(s: AppState, t: AppState, more: Seq<Seq<char>>, id: ClipId)
    requires
        same_but_search(s, t),
        t.search_words() == s.search_words() + more,
        t.accepts(id),
    ensures
        s.accepts(id),
{
    if s.search_words().len() > 0 {
        let hay = s.project.known(id)->0.search_haystack@;
        assert forall|i: int| 0 <= i < s.search_words().len() implies occurs(
            hay,
            #[trigger] s.search_words()[i],
        ) by {
            assert(t.search_words()[i] == s.search_words()[i]);
        }
    }
}

/// The places, among the files that `s` accepts, of those that `t` accepts.
pub open spec fn accepted_places(s: AppState, t: AppState, order: Seq<ClipId>) -> Seq<int>
    decreases order.len(),
{
    if order.len() == 0 {
        Seq::empty()
    } else if t.accepts(order.last()) {
        accepted_places(s, t, order.drop_last()).push(s.accepted(order.drop_last()).len() as int)
    } else {
        accepted_places(s, t, order.drop_last())
    }
}

proof fn lemma_accepted_narrows(
    s: AppState,
    t: AppState,
    more: Seq<Seq<char>>,
    order: Seq<ClipId>,
)
    requires
        same_but_search(s, t),
        t.search_words() == s.search_words() + more,
    ensures
        picks(t.accepted(order), s.accepted(order), accepted_places(s, t, order)),
    decreases order.len(),
{
    if order.len() > 0 {
        lemma_accepted_narrows(s, t, more, order.drop_last());
        if t.accepts(order.last()) {
            lemma_accepts_less(s, t, more, order.last());
        }
    }
}

proof fn lemma_same_accepted(s: AppState, t: AppState, order: Seq<ClipId>)
    requires
        same_but_search(s, t),
        t.search_words() == s.search_words(),
    ensures
        t.accepted(order) == s.accepted(order),
    decreases order.len(),
{
    if order.len() > 0 {
        lemma_same_accepted(s, t, order.drop_last());
        assert(t.accepts(order.last()) == s.accepts(order.last()));
    }
}

proof fn lemma_rising(m: Seq<int>, n: int, i: int)
    requires
        m.len() == n,
        forall|i: int| 0 <= i < n ==> 0 <= #[trigger] m[i] < n,
        forall|i: int, j: int| 0 <= i < j < n ==> #[trigger] m[i] < #[trigger] m[j],
        0 <= i < n,
    ensures
        m[i] >= i,
    decreases i,
{
    if i > 0 {
        lemma_rising(m, n, i - 1);
        assert(m[i - 1] < m[i]);
    }
}

proof fn lemma_rising_below(m: Seq<int>, n: int, i: int)
    requires
        m.len() == n,
        forall|i: int| 0 <= i < n ==> 0 <= #[trigger] m[i] < n,
        forall|i: int, j: int| 0 <= i < j < n ==> #[trigger] m[i] < #[trigger] m[j],
        0 <= i < n,
    ensures
        m[i] <= i,
    decreases n - i,
{
    if i < n - 1 {
        lemma_rising_below(m, n, i + 1);
        assert(m[i] < m[i + 1]);
    }
}

proof fn lemma_whole_sublist(part: Seq<ClipId>, whole: Seq<ClipId>)
    requires
        is_sublist(part, whole),
        part.len() == whole.len(),
    ensures
        part == whole,
{
    let m = choose|m: Seq<int>| picks(part, whole, m);
    assert forall|i: int| 0 <= i < part.len() implies part[i] == whole[i] by {
        lemma_rising(m, part.len() as int, i);
        lemma_rising_below(m, part.len() as int, i);
        assert(part[i] == whole[m[i]]);
    }
    assert(part =~= whole);
}

proof fn lemma_sorted_sublist(
    part: Seq<ClipId>,
    whole: Seq<ClipId>,
    m: Seq<int>,
    part_keys: Seq<KeyView>,
    whole_keys: Seq<KeyView>,
    part_order: Seq<usize>,
    whole_order: Seq<usize>,
    ascending: bool,
)
    requires
        picks(part, whole, m),
        part_keys.len() == part.len(),
        whole_keys.len() == whole.len(),
        forall|i: int| 0 <= i < part.len() ==> #[trigger] part_keys[i] == whole_keys[m[i]],
        is_stable_order(part_keys, part_order, ascending),
        is_stable_order(whole_keys, whole_order, ascending),
    ensures
        is_sublist(arranged(part, part_order), arranged(whole, whole_order)),
{
    let n = part.len();
    let places = Seq::new(
        n,
        |i: int|
            choose|x: int|
                0 <= x < whole.len() && #[trigger] whole_order[x] == m[part_order[i] as int],
    );
    let a = arranged(part, part_order);
    let b = arranged(whole, whole_order);
    assert forall|i: int| 0 <= i < n implies 0 <= #[trigger] places[i] < b.len()
        && whole_order[places[i]] == m[part_order[i] as int] by {
        assert(part_order[i] < n);
        lemma_every_place_listed(whole_order, whole.len(), m[part_order[i] as int]);
    }
    assert forall|i: int, j: int| 0 <= i < j < n implies #[trigger] places[i]
        < #[trigger] places[j] by {
        let p = part_order[i] as int;
        let q = part_order[j] as int;
        assert(part_order[i] < n && part_order[j] < n);
        assert(part_order[i] != part_order[j]);
        assert(in_order(part_keys, p, q, ascending));
        if p < q {
            assert(m[p] < m[q]);
        } else {
            assert(m[q] < m[p]);
        }
        assert(part_keys[p] == whole_keys[m[p]] && part_keys[q] == whole_keys[m[q]]);
        assert(in_order(whole_keys, m[p], m[q], ascending));
        lemma_listed_antisymmetric(whole_keys[m[p]], whole_keys[m[q]], ascending);
        let x = places[i];
        let y = places[j];
        if y < x {
            assert(in_order(
                whole_keys,
                whole_order[y] as int,
                whole_order[x] as int,
                ascending,
            ));
        }
    }
    assert(picks(a, b, places));
}

/// More search words only narrow the list, in the same order; no more words leave it as
/// it was.
pub proof fn law_more_words_only_narrow(
    s: AppState,
    t: AppState,
    more: Seq<Seq<char>>,
    wide: Seq<ClipId>,
    narrow: Seq<ClipId>,
)
    requires
        same_but_search(s, t),
        t.search_words() == s.search_words() + more,
        s.lists(wide),
        t.lists(narrow),
    ensures
        is_sublist(narrow, wide),
        more.len() == 0 ==> narrow == wide,
{
    let order = s.project.clip_order@;
    let whole = s.accepted(order);
    let part = t.accepted(order);
    let m = accepted_places(s, t, order);
    let ascending = s.ui.browser.sort_ascending;
    lemma_accepted_narrows(s, t, more, order);
    if s.ui.browser.sort_mode == SortMode::ImportOrder {
        if !ascending {
            let back = Seq::new(part.len(), |i: int| whole.len() - 1 - m[part.len() - 1 - i]);
            assert(picks(narrow, wide, back));
        }
    } else {
        let part_order = choose|o: Seq<usize>| #[trigger]
            is_stable_order(t.sort_keys(part), o, ascending) && narrow == arranged(part, o);
        let whole_order = choose|o: Seq<usize>| #[trigger]
            is_stable_order(s.sort_keys(whole), o, ascending) && wide == arranged(whole, o);
        assert forall|i: int| 0 <= i < part.len() implies #[trigger] t.sort_keys(part)[i]
            == s.sort_keys(whole)[m[i]] by {
            assert(part[i] == whole[m[i]]);
        }
        lemma_sorted_sublist(
            part,
            whole,
            m,
            t.sort_keys(part),
            s.sort_keys(whole),
            part_order,
            whole_order,
            ascending,
        );
    }
    if more.len() == 0 {
        assert(t.search_words() =~= s.search_words());
        lemma_same_accepted(s, t, order);
        lemma_whole_sublist(narrow, wide);
    }
}

proof fn lemma_occurs_between(a: Seq<char>, b: Seq<char>, c: Seq<char>)
    ensures
        occurs(a + b + c, b),
{
    assert((a + b + c).subrange(a.len() as int, (a.len() + b.len()) as int) =~= b);
    assert(occurs_at(a + b + c, b, a.len() as int));
}

/// A media file is found by the name of the file, and by the name that it is shown under.
pub proof fn law_found_by_name(p: ProjectState, id: ClipId)
    requires
        p.searchable(),
        p.clips@.contains_key(id.0),
    ensures
        occurs(p.clips@[id.0].search_haystack@, lowercase(p.clips@[id.0].filename@)),
        occurs(p.clips@[id.0].search_haystack@, lowercase(p.clips@[id.0].shown_name())),
{
    let c = p.clips@[id.0];
    let hay = c.haystack(p.tags(id));
    let name = lowercase(c.filename@);
    assert(hay =~= Seq::<char>::empty() + name + hay.skip(name.len() as int));
    lemma_occurs_between(Seq::empty(), name, hay.skip(name.len() as int));
    match c.display_name {
        Some(n) => {
            let own = lowercase(n@);
            let before = name.push(' ');
            let after = hay.skip((before.len() + own.len()) as int);
            assert(hay =~= before + own + after);
            lemma_occurs_between(before, own, after);
        },
        None => {},
    }
}

/// A media file is found by each of its labels.
pub proof fn law_found_by_label(p: ProjectState, id: ClipId, tag: Tag)
    requires
        p.searchable(),
        p.clips@.contains_key(id.0),
        p.tags(id) & tag.mask() != 0,
    ensures
        occurs(p.clips@[id.0].search_haystack@, lowercase(tag.text())),
{
    let c = p.clips@[id.0];
    let mask = p.tags(id);
    let hay = c.haystack(mask);
    let label = lowercase(tag.text());
    let t1 = tag_part(mask, Tag::BRoll);
    let t2 = tag_part(mask, Tag::VO);
    let t3 = tag_part(mask, Tag::Music);
    let t4 = tag_part(mask, Tag::Sfx);
    let known = lowercase(c.filename@) + opt_part(c.display_name) + opt_part(c.codec)
        + resolution_part(c.resolution) + duration_part(c.duration);
    let (before, after) = match tag {
        Tag::BRoll => (known.push(' '), t2 + t3 + t4),
        Tag::VO => ((known + t1).push(' '), t3 + t4),
        Tag::Music => ((known + t1 + t2).push(' '), t4),
        Tag::Sfx => ((known + t1 + t2 + t3).push(' '), Seq::empty()),
    };
    assert(hay =~= before + label + after);
    lemma_occurs_between(before, label, after);
}

} // verus!
