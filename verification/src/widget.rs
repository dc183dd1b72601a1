//! The event-dispatch protocol and the widget tree: the list view,
//! its filter overlay, the detail view and its tabs. Every widget
//! answers `dispatch` with Ignored, Consumed or Exited; a parent
//! offers an event to its open transient child first, detaches a
//! child that answers Exited before returning, and only then applies
//! its own key bindings. Each widget's step is given as a spec
//! function over its view, so the whole protocol is a checked state
//! machine.

use vstd::prelude::*;

use crate::Broadcast;
use crate::derive_view::{phase_text, phase_view, ready_text, restarts_text, Phase, PhaseView};
use crate::model::{PodData, PodDataView};
use crate::store::{applied, Store, WatchEvent};
use crate::text::{age_text as age_text_of, contains_sub, matches_at, str_contains};

verus! {

/// One key of the input boundary.
#[derive(Clone, Copy, Debug, PartialEq, Eq)]
pub enum Keypress {
    Escape,
    Enter,
    CursorUp,
    CursorDown,
    CursorLeft,
    CursorRight,
    Backspace,
    /// A printable character.
    Printable(char),
}

/// One discrete input event.
#[derive(Clone, Copy, Debug, PartialEq, Eq)]
pub enum Event {
    Keypress(Keypress),
    /// The terminal was resized to (columns, rows).
    Resize(u16, u16),
}

/// The filter overlay: a single-line editable text buffer with a
/// cursor, layered over the list while the operator types a filter.
/// It never touches the store.
#[derive(Debug)]
pub struct FilterOverlay {
    /// The text typed so far.
    pub content: Vec<char>,
    /// The cursor position, between 0 and the text length.
    pub pos: usize,
}

/// Mathematical image of a [`FilterOverlay`].
pub ghost struct OverlayView {
    pub content: Seq<char>,
    pub pos: int,
}

impl View for FilterOverlay {
    type V = OverlayView;

    open spec fn view(&self) -> OverlayView {
        OverlayView { content: self.content@, pos: self.pos as int }
    }
}

/// How the overlay answers an event: Escape asks to be closed, edits
/// and cursor moves are consumed, everything else is ignored.
pub open spec fn overlay_result(o: OverlayView, ev: Event) -> Broadcast {
    match ev {
        Event::Keypress(Keypress::Escape) => Broadcast::Exited,
        Event::Keypress(Keypress::Printable(c)) => Broadcast::Consumed,
        Event::Keypress(Keypress::Backspace) => Broadcast::Consumed,
        Event::Keypress(Keypress::CursorLeft) => Broadcast::Consumed,
        Event::Keypress(Keypress::CursorRight) => Broadcast::Consumed,
        _ => Broadcast::Ignored,
    }
}

/// The overlay after an event: a printable character is inserted at
/// the cursor, backspace removes the character before the cursor,
/// the cursor moves within the text, and everything else leaves the
/// overlay unchanged.
pub open spec fn overlay_next(o: OverlayView, ev: Event) -> OverlayView {
    match ev {
        Event::Keypress(Keypress::Printable(c)) => OverlayView {
            content: o.content.insert(o.pos, c),
            pos: o.pos + 1,
        },
        Event::Keypress(Keypress::Backspace) => if o.pos == 0 {
            o
        } else {
            OverlayView { content: o.content.remove(o.pos - 1), pos: o.pos - 1 }
        },
        Event::Keypress(Keypress::CursorLeft) => OverlayView {
            content: o.content,
            pos: if o.pos > 0 {
                o.pos - 1
            } else {
                0
            },
        },
        Event::Keypress(Keypress::CursorRight) => OverlayView {
            content: o.content,
            pos: if o.pos < o.content.len() {
                o.pos + 1
            } else {
                o.pos
            },
        },
        _ => o,
    }
}

impl FilterOverlay {
    /// The cursor never leaves the text.
    pub open spec fn wf(self) -> bool {
        self.pos <= self.content@.len()
    }

    /// An empty overlay with the cursor at the start.
    pub fn new() -> (r: FilterOverlay)
        ensures
            r.wf(),
            r@.content == Seq::<char>::empty(),
            r@.pos == 0,
    {
        let content: Vec<char> = Vec::new();
        proof {
            assert(content@ =~= Seq::<char>::empty());
        }
        FilterOverlay { content, pos: 0 }
    }

    /// Answers one event, editing the buffer in place.
    pub fn dispatch(&mut self, ev: &Event) -> (r: Broadcast)
        requires
            old(self).wf(),
        ensures
            final(self).wf(),
            r == overlay_result(old(self)@, *ev),
            final(self)@ == overlay_next(old(self)@, *ev),
    {
        match ev {
            Event::Keypress(Keypress::Escape) => Broadcast::Exited,
            Event::Keypress(Keypress::Printable(c)) => {
                self.content.insert(self.pos, *c);
                let n = self.content.len();
                proof {
                    assert(self.pos < n);
                }
                self.pos = self.pos + 1;
                Broadcast::Consumed
            },
            Event::Keypress(Keypress::Backspace) => {
                if self.pos > 0 {
                    self.content.remove(self.pos - 1);
                    self.pos = self.pos - 1;
                }
                Broadcast::Consumed
            },
            Event::Keypress(Keypress::CursorLeft) => {
                if self.pos > 0 {
                    self.pos = self.pos - 1;
                }
                Broadcast::Consumed
            },
            Event::Keypress(Keypress::CursorRight) => {
                if self.pos < self.content.len() {
                    self.pos = self.pos + 1;
                }
                Broadcast::Consumed
            },
            _ => Broadcast::Ignored,
        }
    }
}


/// Content of one tab. The overview shows the resource document; the
/// logs pane collects the lines of a live log stream.
#[derive(Debug)]
pub enum TabContent {
    Overview,
    Logs(LogPane),
}

/// The logs pane: the lines received so far from the log stream of
/// the shown object. The stream itself runs outside; its lifetime is
/// tied to this pane, so dropping the pane ends the stream.
#[derive(Debug)]
pub struct LogPane {
    /// The lines received so far, oldest first.
    pub lines: Vec<String>,
}

/// Mathematical image of a [`TabContent`].
pub ghost enum ContentView {
    Overview,
    Logs(Seq<Seq<char>>),
}

impl View for TabContent {
    type V = ContentView;

    open spec fn view(&self) -> ContentView {
        match self {
            TabContent::Overview => ContentView::Overview,
            TabContent::Logs(p) => ContentView::Logs(p.lines@.map_values(|l: String| l@)),
        }
    }
}

/// The content a tab starts with when it is activated: the first tab
/// is the overview, every further tab a logs pane with no lines yet.
pub open spec fn fresh_content(i: int) -> ContentView {
    if i == 0 {
        ContentView::Overview
    } else {
        ContentView::Logs(Seq::empty())
    }
}

/// The tabbed sub-view of the detail view: named tabs, one active at
/// a time. Only the active tab has a content instance; switching
/// tabs drops the old instance and builds the new tab's content
/// fresh, so a logs pane (and its stream) never outlives its tab
/// being active.
#[derive(Debug)]
pub struct TabbedView {
    /// The tab titles, in order.
    pub titles: Vec<String>,
    /// The index of the active tab.
    pub active: usize,
    /// The active tab's content.
    pub content: TabContent,
}

/// Mathematical image of a [`TabbedView`].
pub ghost struct TabsView {
    pub titles: Seq<Seq<char>>,
    pub active: int,
    pub content: ContentView,
}

impl View for TabbedView {
    type V = TabsView;

    open spec fn view(&self) -> TabsView {
        TabsView {
            titles: self.titles@.map_values(|t: String| t@),
            active: self.active as int,
            content: self.content@,
        }
    }
}

/// How the tabbed view answers an event: left and right cursor keys
/// belong to the tab bar and are consumed; everything else is
/// ignored.
pub open spec fn tabs_result(t: TabsView, ev: Event) -> Broadcast {
    match ev {
        Event::Keypress(Keypress::CursorLeft) => Broadcast::Consumed,
        Event::Keypress(Keypress::CursorRight) => Broadcast::Consumed,
        _ => Broadcast::Ignored,
    }
}

/// The tabbed view after an event: left and right move the active
/// tab, stopping at the ends; a move away from a tab drops its
/// content and builds the newly active tab's content fresh.
pub open spec fn tabs_next(t: TabsView, ev: Event) -> TabsView {
    match ev {
        Event::Keypress(Keypress::CursorLeft) => if t.active > 0 {
            TabsView { titles: t.titles, active: t.active - 1, content: fresh_content(t.active - 1) }
        } else {
            t
        },
        Event::Keypress(Keypress::CursorRight) => if t.active + 1 < t.titles.len() {
            TabsView { titles: t.titles, active: t.active + 1, content: fresh_content(t.active + 1) }
        } else {
            t
        },
        _ => t,
    }
}

impl TabbedView {
    /// The active index stays within the tabs, and the content is of
    /// the active tab's kind.
    pub open spec fn wf(self) -> bool {
        &&& 0 < self@.titles.len()
        &&& 0 <= self@.active < self@.titles.len()
        &&& (self@.active == 0 <==> self@.content is Overview)
    }

    /// The two tabs of the detail view, overview first, with the
    /// overview active.
    pub fn new() -> (r: TabbedView)
        ensures
            r.wf(),
            r@.titles == seq!["Overview"@, "Logs"@],
            r@.active == 0,
            r@.content == ContentView::Overview,
    {
        let mut titles: Vec<String> = Vec::new();
        titles.push("Overview".to_owned());
        titles.push("Logs".to_owned());
        proof {
            assert(titles@.map_values(|t: String| t@) =~= seq!["Overview"@, "Logs"@]);
        }
        TabbedView { titles, active: 0, content: TabContent::Overview }
    }

    /// Builds the content a tab starts with.
    fn build_content(i: usize) -> (r: TabContent)
        ensures
            r@ == fresh_content(i as int),
    {
        if i == 0 {
            TabContent::Overview
        } else {
            let lines: Vec<String> = Vec::new();
            proof {
                assert(lines@.map_values(|l: String| l@) =~= Seq::<Seq<char>>::empty());
            }
            TabContent::Logs(LogPane { lines })
        }
    }

    /// Answers one event, moving the active tab on left and right.
    pub fn dispatch(&mut self, ev: &Event) -> (r: Broadcast)
        requires
            old(self).wf(),
        ensures
            final(self).wf(),
            r == tabs_result(old(self)@, *ev),
            final(self)@ == tabs_next(old(self)@, *ev),
    {
        match ev {
            Event::Keypress(Keypress::CursorLeft) => {
                if self.active > 0 {
                    self.active = self.active - 1;
                    self.content = Self::build_content(self.active);
                }
                Broadcast::Consumed
            },
            Event::Keypress(Keypress::CursorRight) => {
                let n = self.titles.len();
                if self.active + 1 < n {
                    self.active = self.active + 1;
                    self.content = Self::build_content(self.active);
                }
                Broadcast::Consumed
            },
            _ => Broadcast::Ignored,
        }
    }

    /// Hands one line of the log stream to the logs pane; dropped
    /// when another tab is active.
    pub fn append_log(&mut self, line: String)
        requires
            old(self).wf(),
        ensures
            final(self).wf(),
            final(self)@.titles == old(self)@.titles,
            final(self)@.active == old(self)@.active,
            final(self)@.content == match old(self)@.content {
                ContentView::Logs(ls) => ContentView::Logs(ls.push(line@)),
                ContentView::Overview => ContentView::Overview,
            },
    {
        let ghost pre = old(self)@.content;
        match &mut self.content {
            TabContent::Logs(pane) => {
                let ghost before = pane.lines@;
                pane.lines.push(line);
                proof {
                    assert(pane.lines@.map_values(|l: String| l@) =~= before.map_values(
                        |l: String| l@,
                    ).push(line@));
                }
            },
            TabContent::Overview => {},
        }
    }
}

/// The detail view: the selected object's identity and a tabbed
/// sub-view with its overview and its live logs. All events go to
/// the tabs first; Escape, when the tabs ignore it, asks the parent
/// to close the detail view.
#[derive(Debug)]
pub struct Detail {
    /// The shown object's namespace; empty when it has none.
    pub namespace: String,
    /// The shown object's name.
    pub name: String,
    /// The tabbed sub-view.
    pub view: TabbedView,
}

/// Mathematical image of a [`Detail`].
pub ghost struct DetailViewG {
    pub namespace: Seq<char>,
    pub name: Seq<char>,
    pub tabs: TabsView,
}

impl View for Detail {
    type V = DetailViewG;

    open spec fn view(&self) -> DetailViewG {
        DetailViewG { namespace: self.namespace@, name: self.name@, tabs: self.view@ }
    }
}

/// The tabs a detail view starts with.
pub open spec fn initial_tabs() -> TabsView {
    TabsView {
        titles: seq!["Overview"@, "Logs"@],
        active: 0,
        content: ContentView::Overview,
    }
}

/// How the detail view answers an event: what its tabs consume is
/// consumed; Escape otherwise asks to be closed; the rest is
/// ignored.
pub open spec fn detail_result(d: DetailViewG, ev: Event) -> Broadcast {
    if tabs_result(d.tabs, ev) is Consumed {
        Broadcast::Consumed
    } else if ev == Event::Keypress(Keypress::Escape) {
        Broadcast::Exited
    } else {
        Broadcast::Ignored
    }
}

/// The detail view after an event: only its tabs can change.
pub open spec fn detail_next(d: DetailViewG, ev: Event) -> DetailViewG {
    DetailViewG { namespace: d.namespace, name: d.name, tabs: tabs_next(d.tabs, ev) }
}

/// The breadcrumb shown over the detail view: namespace and name,
/// or the name alone for an object without a namespace.
pub open spec fn breadcrumb_text(ns: Seq<char>, name: Seq<char>) -> Seq<char> {
    if ns.len() == 0 {
        name
    } else {
        ns + " → "@ + name
    }
}

impl Detail {
    /// The tabs are well formed.
    pub open spec fn wf(self) -> bool {
        self.view.wf()
    }

    /// A detail view for the object with this namespace and name,
    /// opening on the overview tab.
    pub fn new(namespace: &str, name: &str) -> (r: Detail)
        ensures
            r.wf(),
            r@.namespace == namespace@,
            r@.name == name@,
            r@.tabs == initial_tabs(),
    {
        Detail { namespace: namespace.to_owned(), name: name.to_owned(), view: TabbedView::new() }
    }

    /// The breadcrumb for the title line.
    pub fn breadcrumb(&self) -> (r: String)
        ensures
            r@ == breadcrumb_text(self@.namespace, self@.name),
    {
        if self.namespace.as_str().unicode_len() == 0 {
            proof {
                assert(self@.namespace.len() == 0);
            }
            self.name.as_str().to_owned()
        } else {
            self.namespace.as_str().to_owned().concat(" → ").concat(self.name.as_str())
        }
    }

    /// Answers one event: tabs first, then Escape to close.
    pub fn dispatch(&mut self, ev: &Event) -> (r: Broadcast)
        requires
            old(self).wf(),
        ensures
            final(self).wf(),
            r == detail_result(old(self)@, *ev),
            final(self)@ == detail_next(old(self)@, *ev),
    {
        let inner = self.view.dispatch(ev);
        match inner {
            Broadcast::Consumed => Broadcast::Consumed,
            _ => {
                match ev {
                    Event::Keypress(Keypress::Escape) => Broadcast::Exited,
                    _ => Broadcast::Ignored,
                }
            },
        }
    }

    /// Hands one line of the log stream to the logs tab.
    pub fn append_log(&mut self, line: String)
        requires
            old(self).wf(),
        ensures
            final(self).wf(),
            final(self)@.namespace == old(self)@.namespace,
            final(self)@.name == old(self)@.name,
            final(self)@.tabs.titles == old(self)@.tabs.titles,
            final(self)@.tabs.active == old(self)@.tabs.active,
            final(self)@.tabs.content == match old(self)@.tabs.content {
                ContentView::Logs(ls) => ContentView::Logs(ls.push(line@)),
                ContentView::Overview => ContentView::Overview,
            },
    {
        self.view.append_log(line);
    }
}

/// The visual emphasis of a list row, keyed off the derived phase.
#[derive(Clone, Copy, Debug, PartialEq, Eq, Structural)]
pub enum Tone {
    Normal,
    Healthy,
    Unhealthy,
}

/// The tone a phase renders with: pending and running are normal,
/// succeeded is healthy, anything unknown is unhealthy.
pub open spec fn tone_of(p: PhaseView) -> Tone {
    match p {
        PhaseView::Pending => Tone::Normal,
        PhaseView::Running => Tone::Normal,
        PhaseView::Succeeded => Tone::Healthy,
        PhaseView::Unknown(s) => Tone::Unhealthy,
    }
}

/// One renderable list row: the cell texts in column order and the
/// row's tone.
#[derive(Debug)]
pub struct RowCells {
    pub namespace: String,
    pub name: String,
    pub ready: String,
    pub phase: String,
    pub restarts: String,
    pub age: String,
    pub tone: Tone,
}

/// Mathematical image of a [`RowCells`].
pub ghost struct RowCellsView {
    pub namespace: Seq<char>,
    pub name: Seq<char>,
    pub ready: Seq<char>,
    pub phase: Seq<char>,
    pub restarts: Seq<char>,
    pub age: Seq<char>,
    pub tone: Tone,
}

impl View for RowCells {
    type V = RowCellsView;

    open spec fn view(&self) -> RowCellsView {
        RowCellsView {
            namespace: self.namespace@,
            name: self.name@,
            ready: self.ready@,
            phase: self.phase@,
            restarts: self.restarts@,
            age: self.age@,
            tone: self.tone,
        }
    }
}

/// The row a resource renders to, relative to `now`.
pub open spec fn row_of(p: PodDataView, now: int) -> RowCellsView {
    RowCellsView {
        namespace: p.namespace,
        name: p.name,
        ready: ready_text(p),
        phase: phase_text(phase_view(p)),
        restarts: restarts_text(p, now),
        age: age_text_of(
            match p.created_at {
                Option::Some(c) => now - c,
                Option::None => 0,
            },
        ),
        tone: tone_of(phase_view(p)),
    }
}

/// Renders one resource to its list row.
pub fn row_cells(p: &PodData, now: i64) -> (r: RowCells)
    ensures
        r@ == row_of(p@, now as int),
{
    let phase = p.status();
    let tone = match &phase {
        Phase::Pending => Tone::Normal,
        Phase::Running => Tone::Normal,
        Phase::Succeeded => Tone::Healthy,
        Phase::Unknown(s) => Tone::Unhealthy,
    };
    RowCells {
        namespace: p.namespace.as_str().to_owned(),
        name: p.name.as_str().to_owned(),
        ready: p.ready(),
        phase: phase.text(),
        restarts: p.restarts(now),
        age: p.age_text(now),
        tone,
    }
}

/// One column width constraint of the list table.
#[derive(Clone, Copy, Debug, PartialEq, Eq, Structural)]
pub enum ColWidth {
    /// At most this many cells.
    Max(u16),
    /// At least this many cells.
    Min(u16),
}

/// The header cell texts of the list table.
pub fn header() -> (r: Vec<String>)
    ensures
        r@.map_values(|s: String| s@) == seq![
            "Namespace"@,
            "Name"@,
            "Ready"@,
            "Status"@,
            "Restarts"@,
            "Age"@,
        ],
{
    let mut out: Vec<String> = Vec::new();
    out.push("Namespace".to_owned());
    out.push("Name".to_owned());
    out.push("Ready".to_owned());
    out.push("Status".to_owned());
    out.push("Restarts".to_owned());
    out.push("Age".to_owned());
    proof {
        assert(out@.map_values(|s: String| s@) =~= seq![
            "Namespace"@,
            "Name"@,
            "Ready"@,
            "Status"@,
            "Restarts"@,
            "Age"@,
        ]);
    }
    out
}

/// The column width constraints of the list table.
pub fn column_constraints() -> (r: Vec<ColWidth>)
    ensures
        r@ == seq![
            ColWidth::Max(20),
            ColWidth::Min(10),
            ColWidth::Max(10),
            ColWidth::Max(10),
            ColWidth::Max(10),
            ColWidth::Max(10),
        ],
{
    let mut out: Vec<ColWidth> = Vec::new();
    out.push(ColWidth::Max(20));
    out.push(ColWidth::Min(10));
    out.push(ColWidth::Max(10));
    out.push(ColWidth::Max(10));
    out.push(ColWidth::Max(10));
    out.push(ColWidth::Max(10));
    proof {
        assert(out@ =~= seq![
            ColWidth::Max(20),
            ColWidth::Min(10),
            ColWidth::Max(10),
            ColWidth::Max(10),
            ColWidth::Max(10),
            ColWidth::Max(10),
        ]);
    }
    out
}

/// The indices, in ascending order, of the first `n` entries whose
/// name contains the filter text.
pub open spec fn filtered_upto(s: Seq<PodDataView>, f: Seq<char>, n: int) -> Seq<int>
    decreases n,
{
    if n <= 0 {
        Seq::empty()
    } else {
        filtered_upto(s, f, n - 1) + if contains_sub(s[n - 1].name, f) {
            seq![n - 1]
        } else {
            Seq::empty()
        }
    }
}

/// Every index the filter yields is in range, the indices ascend,
/// and each named entry contains the filter text.
pub proof fn lemma_filtered_props(s: Seq<PodDataView>, f: Seq<char>, n: int)
    requires
        0 <= n <= s.len(),
    ensures
        forall|k: int|
            0 <= k < filtered_upto(s, f, n).len() ==> 0 <= #[trigger] filtered_upto(s, f, n)[k]
                < n,
        forall|k1: int, k2: int|
            0 <= k1 < k2 < filtered_upto(s, f, n).len() ==> #[trigger] filtered_upto(s, f, n)[k1]
                < #[trigger] filtered_upto(s, f, n)[k2],
        forall|k: int|
            0 <= k < filtered_upto(s, f, n).len() ==> contains_sub(
                s[#[trigger] filtered_upto(s, f, n)[k]].name,
                f,
            ),
        forall|j: int|
            0 <= j < n && contains_sub(#[trigger] s[j].name, f) ==> exists|k: int|
                0 <= k < filtered_upto(s, f, n).len() && filtered_upto(s, f, n)[k] == j,
    decreases n,
{
    if n > 0 {
        lemma_filtered_props(s, f, n - 1);
        assert forall|j: int| 0 <= j < n && contains_sub(#[trigger] s[j].name, f)
            implies exists|k: int|
                0 <= k < filtered_upto(s, f, n).len() && filtered_upto(s, f, n)[k] == j by {
            let prev = filtered_upto(s, f, n - 1);
            if j == n - 1 {
                assert(filtered_upto(s, f, n)[prev.len() as int] == j);
            } else {
                let k = choose|k: int| 0 <= k < prev.len() && prev[k] == j;
                assert(filtered_upto(s, f, n)[k] == j);
            }
        }
    }
}

/// An empty filter keeps every entry, in order.
pub proof fn lemma_filter_empty(s: Seq<PodDataView>, n: int)
    requires
        0 <= n <= s.len(),
    ensures
        filtered_upto(s, Seq::empty(), n).len() == n,
        forall|k: int| 0 <= k < n ==> #[trigger] filtered_upto(s, Seq::empty(), n)[k] == k,
    decreases n,
{
    if n > 0 {
        lemma_filter_empty(s, n - 1);
        assert(matches_at(s[n - 1].name, Seq::empty(), 0)) by {
            assert(s[n - 1].name.subrange(0, 0) =~= Seq::<char>::empty());
        }
        assert(contains_sub(s[n - 1].name, Seq::empty()));
    }
}

/// The smaller of two numbers.
pub open spec fn imin(a: int, b: int) -> int {
    if a <= b {
        a
    } else {
        b
    }
}

/// The list view: the store, the selection, and the optional filter
/// overlay and detail view children.
#[derive(Debug)]
pub struct PodTable {
    /// The cache the list renders from.
    pub store: Store,
    /// The selection index; clamped to the visible items at every
    /// read, so a shrinking filter can never leave it dangling.
    pub selected: usize,
    /// The filter overlay, while open. The filter is live: the list
    /// reads the overlay text every frame, and closing the overlay
    /// drops the filter.
    pub filter: Option<FilterOverlay>,
    /// The detail view, while open.
    pub detail: Option<Detail>,
}

/// Mathematical image of a [`PodTable`].
pub ghost struct TableViewG {
    pub contents: Seq<PodDataView>,
    pub selected: int,
    pub filter: Option<OverlayView>,
    pub detail: Option<DetailViewG>,
}

impl View for PodTable {
    type V = TableViewG;

    open spec fn view(&self) -> TableViewG {
        TableViewG {
            contents: self.store.contents(),
            selected: self.selected as int,
            filter: match self.filter {
                Option::Some(o) => Option::Some(o@),
                Option::None => Option::None,
            },
            detail: match self.detail {
                Option::Some(d) => Option::Some(d@),
                Option::None => Option::None,
            },
        }
    }
}

/// The filter text in effect: the open overlay's live text, or
/// nothing (which every name contains) when no overlay is open.
pub open spec fn effective_filter(t: TableViewG) -> Seq<char> {
    match t.filter {
        Option::Some(o) => o.content,
        Option::None => Seq::empty(),
    }
}

/// The indices of the entries the list shows, ascending: those whose
/// name contains the filter text in effect.
pub open spec fn visible_of(t: TableViewG) -> Seq<int> {
    filtered_upto(t.contents, effective_filter(t), t.contents.len() as int)
}

/// The largest valid selection index; zero on an empty list.
pub open spec fn max_sel(t: TableViewG) -> int {
    if visible_of(t).len() == 0 {
        0
    } else {
        visible_of(t).len() - 1
    }
}

/// How the list answers a key nobody else claimed: Escape asks to be
/// closed; Enter, scrolling and printable characters are acted on;
/// the remaining keys are ignored.
pub open spec fn own_result(k: Keypress) -> Broadcast {
    match k {
        Keypress::Escape => Broadcast::Exited,
        Keypress::Enter => Broadcast::Consumed,
        Keypress::CursorUp => Broadcast::Consumed,
        Keypress::CursorDown => Broadcast::Consumed,
        Keypress::Printable(c) => Broadcast::Consumed,
        _ => Broadcast::Ignored,
    }
}

/// The list after a key nobody else claimed: Enter opens the detail
/// view of the selected visible item (none on an empty list), the
/// cursor keys move the selection within the visible items, and a
/// slash opens an empty filter overlay.
pub open spec fn own_next(t: TableViewG, k: Keypress) -> TableViewG {
    match k {
        Keypress::Enter => TableViewG {
            contents: t.contents,
            selected: t.selected,
            filter: t.filter,
            detail: if visible_of(t).len() > 0 {
                Option::Some(
                    DetailViewG {
                        namespace: t.contents[visible_of(t)[imin(t.selected, max_sel(t))]].namespace,
                        name: t.contents[visible_of(t)[imin(t.selected, max_sel(t))]].name,
                        tabs: initial_tabs(),
                    },
                )
            } else {
                Option::None
            },
        },
        Keypress::CursorUp => TableViewG {
            contents: t.contents,
            selected: imin(
                if t.selected > 0 {
                    t.selected - 1
                } else {
                    0
                },
                max_sel(t),
            ),
            filter: t.filter,
            detail: t.detail,
        },
        Keypress::CursorDown => TableViewG {
            contents: t.contents,
            selected: imin(t.selected + 1, max_sel(t)),
            filter: t.filter,
            detail: t.detail,
        },
        Keypress::Printable(c) => if c == '/' {
            TableViewG {
                contents: t.contents,
                selected: t.selected,
                filter: Option::Some(OverlayView { content: Seq::empty(), pos: 0 }),
                detail: t.detail,
            }
        } else {
            t
        },
        _ => t,
    }
}

/// The list view's answer after its open children had their turn:
/// what a child consumed or exited on is consumed here; otherwise
/// its own bindings decide.
pub open spec fn table_result(t: TableViewG, ev: Event) -> Broadcast {
    match ev {
        Event::Keypress(k) => {
            let fr = match t.filter {
                Option::Some(o) => overlay_result(o, ev),
                Option::None => Broadcast::Ignored,
            };
            let dr = match t.detail {
                Option::Some(d) => detail_result(d, ev),
                Option::None => Broadcast::Ignored,
            };
            if !(fr is Ignored) {
                Broadcast::Consumed
            } else if !(dr is Ignored) {
                Broadcast::Consumed
            } else {
                own_result(k)
            }
        },
        _ => Broadcast::Ignored,
    }
}

/// The list after its detail child had its turn.
pub open spec fn after_overlay(t: TableViewG, ev: Event, k: Keypress) -> TableViewG {
    match t.detail {
        Option::Some(d) => {
            let r = detail_result(d, ev);
            if r is Exited {
                TableViewG {
                    contents: t.contents,
                    selected: t.selected,
                    filter: t.filter,
                    detail: Option::None,
                }
            } else if r is Consumed {
                TableViewG {
                    contents: t.contents,
                    selected: t.selected,
                    filter: t.filter,
                    detail: Option::Some(detail_next(d, ev)),
                }
            } else {
                own_next(t, k)
            }
        },
        Option::None => own_next(t, k),
    }
}

/// The list after an event: the open filter overlay goes first (an
/// exit detaches it), then the open detail view (an exit detaches
/// it), then the list's own bindings.
pub open spec fn table_next(t: TableViewG, ev: Event) -> TableViewG {
    match ev {
        Event::Keypress(k) => match t.filter {
            Option::Some(o) => {
                let r = overlay_result(o, ev);
                if r is Exited {
                    TableViewG {
                        contents: t.contents,
                        selected: t.selected,
                        filter: Option::None,
                        detail: t.detail,
                    }
                } else if r is Consumed {
                    TableViewG {
                        contents: t.contents,
                        selected: t.selected,
                        filter: Option::Some(overlay_next(o, ev)),
                        detail: t.detail,
                    }
                } else {
                    after_overlay(t, ev, k)
                }
            },
            Option::None => after_overlay(t, ev, k),
        },
        _ => t,
    }
}

impl PodTable {
    /// The store and any open children are well formed.
    pub open spec fn wf(self) -> bool {
        &&& self.store.wf()
        &&& match self.filter {
            Option::Some(o) => o.wf(),
            Option::None => true,
        }
        &&& match self.detail {
            Option::Some(d) => d.wf(),
            Option::None => true,
        }
    }

    /// An empty list view over an empty store.
    pub fn new() -> (r: PodTable)
        ensures
            r.wf(),
            r@.contents.len() == 0,
            r@.selected == 0,
            r@.filter is None,
            r@.detail is None,
    {
        PodTable {
            store: Store::new(),
            selected: 0,
            filter: Option::None,
            detail: Option::None,
        }
    }

    /// Hands one watch event to the store; the widget state is
    /// untouched.
    pub fn apply_event(&mut self, ev: WatchEvent)
        requires
            old(self).wf(),
        ensures
            final(self).wf(),
            applied(old(self)@.contents, ev@, final(self)@.contents),
            final(self)@.selected == old(self)@.selected,
            final(self)@.filter == old(self)@.filter,
            final(self)@.detail == old(self)@.detail,
    {
        self.store.apply(ev);
    }

    /// The indices of the entries the list currently shows, in the
    /// store's sort order.
    pub fn visible_indices(&self) -> (r: Vec<usize>)
        requires
            self.wf(),
        ensures
            r@.map_values(|u: usize| u as int) == visible_of(self@),
    {
        let ghost eff = effective_filter(self@);
        let mut out: Vec<usize> = Vec::new();
        let n = self.store.entries.len();
        let mut j: usize = 0;
        while j < n
            invariant
                0 <= j <= n,
                n == self.store.entries@.len(),
                n == self@.contents.len(),
                eff == effective_filter(self@),
                out@.map_values(|u: usize| u as int) == filtered_upto(
                    self@.contents,
                    eff,
                    j as int,
                ),
            decreases n - j,
        {
            let keep = match &self.filter {
                Option::Some(o) => str_contains(
                    self.store.entries[j].name.as_str(),
                    o.content.as_slice(),
                ),
                Option::None => true,
            };
            proof {
                if self.filter is None {
                    assert(matches_at(self@.contents[j as int].name, eff, 0)) by {
                        assert(self@.contents[j as int].name.subrange(0, 0)
                            =~= Seq::<char>::empty());
                    }
                    assert(contains_sub(self@.contents[j as int].name, eff));
                }
                assert(keep == contains_sub(self@.contents[j as int].name, eff));
            }
            if keep {
                out.push(j);
                proof {
                    assert(out@.map_values(|u: usize| u as int) =~= filtered_upto(
                        self@.contents,
                        eff,
                        j as int,
                    ) + seq![j as int]);
                }
            } else {
                proof {
                    assert(out@.map_values(|u: usize| u as int) =~= filtered_upto(
                        self@.contents,
                        eff,
                        j as int,
                    ));
                }
            }
            j = j + 1;
        }
        out
    }

    /// The selection as the next read sees it: clamped into the
    /// visible items, or nothing when the list is empty.
    pub fn selection(&self) -> (r: Option<usize>)
        requires
            self.wf(),
        ensures
            match r {
                Option::Some(u) => visible_of(self@).len() > 0 && u as int == imin(
                    self@.selected,
                    visible_of(self@).len() - 1,
                ),
                Option::None => visible_of(self@).len() == 0,
            },
    {
        let count = self.visible_indices().len();
        if count == 0 {
            Option::None
        } else {
            Option::Some(
                if self.selected < count {
                    self.selected
                } else {
                    count - 1
                },
            )
        }
    }

    /// Renders the visible entries to rows, in order.
    pub fn rows(&self, now: i64) -> (r: Vec<RowCells>)
        requires
            self.wf(),
        ensures
            r@.len() == visible_of(self@).len(),
            forall|k: int|
                0 <= k < r@.len() ==> #[trigger] r@[k]@ == row_of(
                    self@.contents[visible_of(self@)[k]],
                    now as int,
                ),
    {
        let idxs = self.visible_indices();
        proof {
            lemma_filtered_props(
                self@.contents,
                effective_filter(self@),
                self@.contents.len() as int,
            );
        }
        let mut out: Vec<RowCells> = Vec::new();
        let mut k: usize = 0;
        let n = self.store.entries.len();
        while k < idxs.len()
            invariant
                0 <= k <= idxs@.len(),
                n == self.store.entries@.len(),
                n == self@.contents.len(),
                idxs@.map_values(|u: usize| u as int) == visible_of(self@),
                forall|k2: int|
                    0 <= k2 < visible_of(self@).len() ==> 0 <= #[trigger] visible_of(self@)[k2]
                        < n,
                out@.len() == k,
                forall|k2: int|
                    0 <= k2 < k ==> #[trigger] out@[k2]@ == row_of(
                        self@.contents[visible_of(self@)[k2]],
                        now as int,
                    ),
            decreases idxs@.len() - k,
        {
            let i = idxs[k];
            proof {
                assert(idxs@.map_values(|u: usize| u as int)[k as int] == i as int);
            }
            out.push(row_cells(&self.store.entries[i], now));
            k = k + 1;
        }
        out
    }

    /// Answers one event: the open filter overlay first, then the
    /// open detail view, then the list's own bindings; a child that
    /// answers Exited is detached before the call returns.
    pub fn dispatch(&mut self, ev: &Event) -> (r: Broadcast)
        requires
            old(self).wf(),
        ensures
            final(self).wf(),
            r == table_result(old(self)@, *ev),
            final(self)@ == table_next(old(self)@, *ev),
    {
        let is_key = match ev {
            Event::Keypress(k) => true,
            _ => false,
        };
        if !is_key {
            return Broadcast::Ignored;
        }
        let fr: Option<Broadcast> = match &mut self.filter {
            Option::Some(o) => Option::Some(o.dispatch(ev)),
            Option::None => Option::None,
        };
        match fr {
            Option::Some(Broadcast::Exited) => {
                self.filter = Option::None;
                return Broadcast::Consumed;
            },
            Option::Some(Broadcast::Consumed) => {
                return Broadcast::Consumed;
            },
            _ => {},
        }
        let dr: Option<Broadcast> = match &mut self.detail {
            Option::Some(d) => Option::Some(d.dispatch(ev)),
            Option::None => Option::None,
        };
        match dr {
            Option::Some(Broadcast::Exited) => {
                self.detail = Option::None;
                return Broadcast::Consumed;
            },
            Option::Some(Broadcast::Consumed) => {
                return Broadcast::Consumed;
            },
            _ => {},
        }
        match ev {
            Event::Keypress(Keypress::Escape) => Broadcast::Exited,
            Event::Keypress(Keypress::Enter) => {
                let idxs = self.visible_indices();
                if idxs.len() > 0 {
                    proof {
                        lemma_filtered_props(
                            self@.contents,
                            effective_filter(self@),
                            self@.contents.len() as int,
                        );
                    }
                    let count = idxs.len();
                    let sel = if self.selected < count {
                        self.selected
                    } else {
                        count - 1
                    };
                    let i = idxs[sel];
                    proof {
                        assert(idxs@.map_values(|u: usize| u as int)[sel as int] == i as int);
                    }
                    let item_ns = self.store.entries[i].namespace.as_str();
                    let item_name = self.store.entries[i].name.as_str();
                    self.detail = Option::Some(Detail::new(item_ns, item_name));
                } else {
                    self.detail = Option::None;
                }
                Broadcast::Consumed
            },
            Event::Keypress(Keypress::CursorUp) => {
                let count = self.visible_indices().len();
                let max = if count == 0 {
                    0
                } else {
                    count - 1
                };
                let a = if self.selected > 0 {
                    self.selected - 1
                } else {
                    0
                };
                self.selected = if a < max {
                    a
                } else {
                    max
                };
                Broadcast::Consumed
            },
            Event::Keypress(Keypress::CursorDown) => {
                let count = self.visible_indices().len();
                let max = if count == 0 {
                    0
                } else {
                    count - 1
                };
                self.selected = if self.selected < max {
                    self.selected + 1
                } else {
                    max
                };
                Broadcast::Consumed
            },
            Event::Keypress(Keypress::Printable(c)) => {
                if *c == '/' {
                    self.filter = Option::Some(FilterOverlay::new());
                }
                Broadcast::Consumed
            },
            _ => Broadcast::Ignored,
        }
    }
}

/// An Escape sent to a view with no open child makes it ask to be
/// closed, and leaves it unchanged: the parent does the detaching.
pub proof fn lemma_escape_exits_leaf(t: TableViewG)
    requires
        t.filter is None,
        t.detail is None,
    ensures
        table_result(t, Event::Keypress(Keypress::Escape)) == Broadcast::Exited,
        table_next(t, Event::Keypress(Keypress::Escape)) == t,
{
}

/// A child that answers Exited is detached by its parent before the
/// parent returns, and the parent answers Consumed: the next frame
/// renders without the child. Here for the filter overlay, which
/// exits on Escape.
pub proof fn lemma_exited_overlay_is_detached(t: TableViewG)
    requires
        t.filter is Some,
    ensures
        table_result(t, Event::Keypress(Keypress::Escape)) == Broadcast::Consumed,
        table_next(t, Event::Keypress(Keypress::Escape)).filter is None,
        table_next(t, Event::Keypress(Keypress::Escape)).detail == t.detail,
        table_next(t, Event::Keypress(Keypress::Escape)).contents == t.contents,
        table_next(t, Event::Keypress(Keypress::Escape)).selected == t.selected,
{
}

/// The same detachment for the detail view: its tabs ignore Escape,
/// so it exits, and the list detaches it and consumes the event.
pub proof fn lemma_exited_detail_is_detached(t: TableViewG)
    requires
        t.filter is None,
        t.detail is Some,
    ensures
        table_result(t, Event::Keypress(Keypress::Escape)) == Broadcast::Consumed,
        table_next(t, Event::Keypress(Keypress::Escape)).detail is None,
        table_next(t, Event::Keypress(Keypress::Escape)).filter is None,
        table_next(t, Event::Keypress(Keypress::Escape)).contents == t.contents,
        table_next(t, Event::Keypress(Keypress::Escape)).selected == t.selected,
{
}

} // verus!
