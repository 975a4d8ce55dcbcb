//! The navigation and mode state machine: selection over dimensions and
//! tabs, the input modes and their buffers, search state, and every
//! mutation of the configuration. The engine decides; the caller queries
//! the session backend and performs the returned commands.

use vstd::prelude::*;
use vstd::string::StrSliceExecFns;
use crate::dimension::{ConfigModel, Dimension, DimensionConfig, DimensionModel, Tab, TabModel, config_wf, has_dim, removed_first};
use crate::path_completion::{CompletionModel, CompletionState, PathCompleter, first_index_of, lemma_first_index_none, lemma_first_index_some, step_backward, step_forward};
use crate::search::{SearchResult, SearchResultModel, all_results, count_for_dimension, dim_pred, effective_tab_refs, lemma_filter_len_multiset_invariant, search_dimension, sort_results_desc, sorted_by_score_desc};
use crate::session::{BackendCommand, CommandModel, LiveWindow, LiveWindowModel};
use crate::strutil;

verus! {

/// The input modes of the interactive loop. `Normal` is the initial
/// mode; every other mode returns to it on cancel or submit.
#[derive(Clone, Copy, PartialEq, Eq, Structural, Debug)]
pub enum InputMode {
    Normal,
    /// Typing the name of a dimension to create.
    CreatingDimensionName,
    /// Typing the base directory of the dimension being created.
    CreatingDimensionDirectory,
    /// Typing `name` or `name:command` for a new tab.
    AddingTab,
    /// Confirming deletion of the selected dimension.
    DeletingDimension,
    /// Confirming deletion of the selected tab.
    DeletingTab,
    /// Typing a live search query.
    Searching,
}

/// Everything the state machine owns, modelled mathematically.
pub ghost struct AppModel {
    pub config: ConfigModel,
    pub selected_dimension: int,
    pub selected_tab: Option<int>,
    pub input_mode: InputMode,
    pub input_buffer: Seq<char>,
    pub pending_dimension_name: Option<Seq<char>>,
    pub completion: Option<CompletionModel>,
    pub search_query: Seq<char>,
    pub search_results: Seq<SearchResultModel>,
    pub search_selected_index: int,
    pub last_computed_query: Seq<char>,
    pub pre_search_dimension: int,
    pub pre_search_tab: Option<int>,
    pub message: Option<Seq<char>>,
    pub should_quit: bool,
    pub should_attach: Option<Seq<char>>,
    pub should_select_window: Option<int>,
    pub should_detach: bool,
    pub current_session: Option<Seq<char>>,
    pub current_window: Option<int>,
}

/// An `Option<usize>` as an `Option<int>`.
pub open spec fn opt_int(o: Option<usize>) -> Option<int> {
    match o {
        Some(i) => Some(i as int),
        None => None,
    }
}

/// The whole engine state. `selected_tab` is a live window index while
/// the selected dimension's session exists, else a position into its
/// configured tabs; `None` means the dimension itself is selected.
pub struct App {
    pub config: DimensionConfig,
    pub selected_dimension: usize,
    pub selected_tab: Option<usize>,
    pub input_mode: InputMode,
    pub input_buffer: String,
    pub pending_dimension_name: Option<String>,
    pub completion: Option<CompletionState>,
    pub search_query: String,
    pub search_results: Vec<SearchResult>,
    pub search_selected_index: usize,
    pub last_computed_query: String,
    pub pre_search_dimension: usize,
    pub pre_search_tab: Option<usize>,
    pub message: Option<String>,
    pub should_quit: bool,
    pub should_attach: Option<String>,
    pub should_select_window: Option<usize>,
    pub should_detach: bool,
    pub current_session: Option<String>,
    pub current_window: Option<usize>,
}

impl View for App {
    type V = AppModel;

    open spec fn view(&self) -> AppModel {
        AppModel {
            config: self.config@,
            selected_dimension: self.selected_dimension as int,
            selected_tab: opt_int(self.selected_tab),
            input_mode: self.input_mode,
            input_buffer: self.input_buffer@,
            pending_dimension_name: self.pending_dimension_name.deep_view(),
            completion: match self.completion {
                Some(c) => Some(c@),
                None => None,
            },
            search_query: self.search_query@,
            search_results: self.search_results.deep_view(),
            search_selected_index: self.search_selected_index as int,
            last_computed_query: self.last_computed_query@,
            pre_search_dimension: self.pre_search_dimension as int,
            pre_search_tab: opt_int(self.pre_search_tab),
            message: self.message.deep_view(),
            should_quit: self.should_quit,
            should_attach: self.should_attach.deep_view(),
            should_select_window: opt_int(self.should_select_window),
            should_detach: self.should_detach,
            current_session: self.current_session.deep_view(),
            current_window: opt_int(self.current_window),
        }
    }
}

/// Validity of the engine state: unique dimension names, the dimension
/// selections in bounds (0 when there are no dimensions), the search
/// cursor in bounds, a staged name present while the directory of a new
/// dimension is being typed, and the completion cursor in bounds.
pub open spec fn app_wf(m: AppModel) -> bool {
    &&& config_wf(m.config)
    &&& (m.config.dimensions.len() == 0 ==> m.selected_dimension == 0)
    &&& (m.config.dimensions.len() > 0 ==> 0 <= m.selected_dimension < m.config.dimensions.len())
    &&& m.pre_search_dimension >= 0
    &&& (m.search_results.len() == 0 ==> m.search_selected_index == 0)
    &&& (m.search_results.len() > 0 ==> 0 <= m.search_selected_index < m.search_results.len())
    &&& (m.input_mode == InputMode::CreatingDimensionDirectory ==> m.pending_dimension_name
        is Some)
    &&& (m.completion matches Some(c) ==> (c.cursor matches Some(i) ==> 0 <= i
        < c.candidates.len()))
}

impl App {
    /// Validity of this engine state.
    pub open spec fn wf(self) -> bool {
        app_wf(self@)
    }

    /// A fresh engine over a loaded configuration, remembering the
    /// session and window the process was started inside, if any.
    pub fn new(
        config: DimensionConfig,
        current_session: Option<String>,
        current_window: Option<usize>,
    ) -> (app: App)
        requires
            config_wf(config@),
        ensures
            app.wf(),
            app@.config == config@,
            app@.selected_dimension == 0,
            app@.selected_tab is None,
            app@.input_mode == InputMode::Normal,
            app@.input_buffer == Seq::<char>::empty(),
            app@.pending_dimension_name is None,
            app@.completion is None,
            app@.search_query == Seq::<char>::empty(),
            app@.search_results == Seq::<SearchResultModel>::empty(),
            app@.search_selected_index == 0,
            app@.last_computed_query == Seq::<char>::empty(),
            app@.pre_search_dimension == 0,
            app@.pre_search_tab is None,
            app@.message is None,
            !app@.should_quit,
            app@.should_attach is None,
            app@.should_select_window is None,
            !app@.should_detach,
            app@.current_session == current_session.deep_view(),
            app@.current_window == opt_int(current_window),
    {
        let app = App {
            config,
            selected_dimension: 0,
            selected_tab: None,
            input_mode: InputMode::Normal,
            input_buffer: String::new(),
            pending_dimension_name: None,
            completion: None,
            search_query: String::new(),
            search_results: Vec::new(),
            search_selected_index: 0,
            last_computed_query: String::new(),
            pre_search_dimension: 0,
            pre_search_tab: None,
            message: None,
            should_quit: false,
            should_attach: None,
            should_select_window: None,
            should_detach: false,
            current_session,
            current_window,
        };
        proof {
            assert(app.search_results.deep_view() =~= Seq::<SearchResultModel>::empty());
        }
        app
    }

    /// The persisted text of the current configuration; the caller
    /// rewrites the stored document with it after every mutation.
    pub fn save_config(&self) -> (r: String)
        ensures
            r@ == crate::codec::enc_config(self@.config),
    {
        self.config.encode()
    }

    /// Quit and detach from the multiplexer.
    pub fn quit(&mut self)
        ensures
            final(self)@ == (AppModel { should_quit: true, should_detach: true, ..old(self)@ }),
    {
        self.should_quit = true;
        self.should_detach = true;
    }

    /// Quit without detaching: used when switching to a session.
    pub fn quit_without_detach(&mut self)
        ensures
            final(self)@ == (AppModel { should_quit: true, should_detach: false, ..old(self)@ }),
    {
        self.should_quit = true;
        self.should_detach = false;
    }

    /// Close the interface and stay where we are: no detach, no attach
    /// target.
    pub fn close_popup(&mut self)
        ensures
            final(self)@ == (AppModel { should_quit: true, should_detach: false, ..old(self)@ }),
    {
        self.should_quit = true;
        self.should_detach = false;
    }

    /// Show a status message.
    pub fn set_message(&mut self, msg: String)
        ensures
            final(self)@ == (AppModel { message: Some(msg@), ..old(self)@ }),
    {
        self.message = Some(msg);
    }

    /// Clear the status message.
    pub fn clear_message(&mut self)
        ensures
            final(self)@ == (AppModel { message: None, ..old(self)@ }),
    {
        self.message = None;
    }

    /// Select the next dimension, cyclically, dropping any tab
    /// selection; nothing happens without dimensions.
    pub fn next_dimension(&mut self)
        requires
            old(self).wf(),
        ensures
            final(self).wf(),
            old(self)@.config.dimensions.len() == 0 ==> final(self)@ == old(self)@,
            old(self)@.config.dimensions.len() > 0 ==> final(self)@ == (AppModel {
                selected_dimension: (old(self)@.selected_dimension + 1)
                    % old(self)@.config.dimensions.len() as int,
                selected_tab: None,
                ..old(self)@
            }),
    {
        let n = self.config.dimensions.len();
        if n > 0 {
            self.selected_dimension = (self.selected_dimension + 1) % n;
            self.selected_tab = None;
        }
    }

    /// Select the previous dimension, cyclically, dropping any tab
    /// selection; nothing happens without dimensions.
    pub fn previous_dimension(&mut self)
        requires
            old(self).wf(),
        ensures
            final(self).wf(),
            old(self)@.config.dimensions.len() == 0 ==> final(self)@ == old(self)@,
            old(self)@.config.dimensions.len() > 0 ==> final(self)@ == (AppModel {
                selected_dimension: if old(self)@.selected_dimension == 0 {
                    old(self)@.config.dimensions.len() - 1
                } else {
                    old(self)@.selected_dimension - 1
                },
                selected_tab: None,
                ..old(self)@
            }),
    {
        let n = self.config.dimensions.len();
        if n > 0 {
            if self.selected_dimension == 0 {
                self.selected_dimension = n - 1;
            } else {
                self.selected_dimension = self.selected_dimension - 1;
            }
            self.selected_tab = None;
        }
    }

    /// The selected dimension, when there is one.
    pub fn get_current_dimension(&self) -> (r: Option<&Dimension>)
        requires
            self.wf(),
        ensures
            r is Some <==> self@.config.dimensions.len() > 0,
            r matches Some(d) ==> d@ == self@.config.dimensions[self@.selected_dimension],
    {
        if self.config.dimensions.len() > 0 {
            Some(&self.config.dimensions[self.selected_dimension])
        } else {
            None
        }
    }
}

/// The position of the first live window with this index, if any.
pub open spec fn find_window_pos(ws: Seq<LiveWindowModel>, idx: int) -> Option<int>
    decreases ws.len(),
{
    if ws.len() == 0 {
        None
    } else if ws[0].index == idx {
        Some(0)
    } else {
        match find_window_pos(ws.drop_first(), idx) {
            Some(p) => Some(p + 1),
            None => None,
        }
    }
}

proof fn lemma_find_window_pos_some(ws: Seq<LiveWindowModel>, idx: int, i: int)
    requires
        0 <= i < ws.len(),
        ws[i].index == idx,
        forall|k: int| 0 <= k < i ==> ws[k].index != idx,
    ensures
        find_window_pos(ws, idx) == Some(i),
    decreases i,
{
    if i > 0 {
        lemma_find_window_pos_some(ws.drop_first(), idx, i - 1);
    }
}

proof fn lemma_find_window_pos_none(ws: Seq<LiveWindowModel>, idx: int)
    requires
        forall|k: int| 0 <= k < ws.len() ==> ws[k].index != idx,
    ensures
        find_window_pos(ws, idx) is None,
    decreases ws.len(),
{
    if ws.len() > 0 {
        lemma_find_window_pos_none(ws.drop_first(), idx);
    }
}

/// One step forward on the cycle (dimension, tab 0, …, tab n-1):
/// advancing from the dimension lands on the first tab; advancing past
/// the last tab lands back on the dimension.
pub open spec fn tab_cycle_next(cur: Option<int>, n: int) -> Option<int> {
    match cur {
        None => if n > 0 {
            Some(0)
        } else {
            None
        },
        Some(p) => if p + 1 < n {
            Some(p + 1)
        } else {
            None
        },
    }
}

/// One step backward on the same cycle: retreating from the dimension
/// lands on the last tab; retreating past the first tab lands back on
/// the dimension.
pub open spec fn tab_cycle_prev(cur: Option<int>, n: int) -> Option<int> {
    match cur {
        None => if n > 0 {
            Some(n - 1)
        } else {
            None
        },
        Some(p) => if p == 0 || p >= n {
            None
        } else {
            Some(p - 1)
        },
    }
}

/// The current selection as a position on the cycle. In a live session
/// the selection is a window index and is located in the window list (a
/// stale index counts as "dimension selected"); without one it is a
/// position already (out of range counts as "dimension selected").
pub open spec fn selection_position(
    live: Option<Seq<LiveWindowModel>>,
    tabs: Seq<TabModel>,
    cur: Option<int>,
) -> Option<int> {
    match cur {
        None => None,
        Some(c) => match live {
            Some(ws) => find_window_pos(ws, c),
            None => if 0 <= c < tabs.len() {
                Some(c)
            } else {
                None
            },
        },
    }
}

/// A position on the cycle, written back into the selection's own index
/// space: the window index at that position when live, the position
/// itself when not.
pub open spec fn position_selection(
    live: Option<Seq<LiveWindowModel>>,
    pos: Option<int>,
) -> Option<int> {
    match pos {
        None => None,
        Some(p) => match live {
            Some(ws) => Some(ws[p].index),
            None => Some(p),
        },
    }
}

/// How many positions the cycle has.
pub open spec fn effective_count(live: Option<Seq<LiveWindowModel>>, tabs: Seq<TabModel>) -> int {
    match live {
        Some(ws) => ws.len() as int,
        None => tabs.len() as int,
    }
}

/// The tab selection after one forward step.
pub open spec fn next_tab_selection(
    live: Option<Seq<LiveWindowModel>>,
    tabs: Seq<TabModel>,
    cur: Option<int>,
) -> Option<int> {
    position_selection(
        live,
        tab_cycle_next(selection_position(live, tabs, cur), effective_count(live, tabs)),
    )
}

/// The tab selection after one backward step.
pub open spec fn prev_tab_selection(
    live: Option<Seq<LiveWindowModel>>,
    tabs: Seq<TabModel>,
    cur: Option<int>,
) -> Option<int> {
    position_selection(
        live,
        tab_cycle_prev(selection_position(live, tabs, cur), effective_count(live, tabs)),
    )
}

/// Locates the first live window carrying this index.
fn find_pos(ws: &Vec<LiveWindow>, idx: usize) -> (r: Option<usize>)
    ensures
        opt_int(r) == find_window_pos(ws.deep_view(), idx as int),
        r matches Some(p) ==> p < ws.deep_view().len(),
{
    let mut i: usize = 0;
    while i < ws.len()
        invariant
            i <= ws.deep_view().len(),
            forall|k: int| 0 <= k < i ==> ws.deep_view()[k].index != idx,
        decreases ws.len() - i,
    {
        if ws[i].index == idx {
            proof {
                lemma_find_window_pos_some(ws.deep_view(), idx as int, i as int);
            }
            return Some(i);
        }
        i = i + 1;
    }
    proof {
        lemma_find_window_pos_none(ws.deep_view(), idx as int);
    }
    None
}

impl App {
    /// Applies a computed cycle position to the selection.
    fn set_selection_from_position(
        &mut self,
        live_windows: Option<&Vec<LiveWindow>>,
        pos: Option<usize>,
    )
        requires
            pos matches Some(p) ==> (live_windows matches Some(ws) ==> p < ws.deep_view().len()),
        ensures
            final(self)@ == (AppModel {
                selected_tab: position_selection(live_windows.deep_view(), opt_int(pos)),
                ..old(self)@
            }),
    {
        match pos {
            None => {
                self.selected_tab = None;
            },
            Some(p) => match live_windows {
                Some(ws) => {
                    self.selected_tab = Some(ws[p].index);
                },
                None => {
                    self.selected_tab = Some(p);
                },
            },
        }
    }

    /// Computes the selection's current position on the cycle.
    fn selection_position_exec(&self, live_windows: Option<&Vec<LiveWindow>>, count: usize) -> (r:
        Option<usize>)
        requires
            self.wf(),
            self@.config.dimensions.len() > 0,
            count as int == effective_count(
                live_windows.deep_view(),
                self@.config.dimensions[self@.selected_dimension].tabs,
            ),
        ensures
            opt_int(r) == selection_position(
                live_windows.deep_view(),
                self@.config.dimensions[self@.selected_dimension].tabs,
                self@.selected_tab,
            ),
            r matches Some(p) ==> p < count,
    {
        match self.selected_tab {
            None => None,
            Some(c) => match live_windows {
                Some(ws) => {
                    let r = find_pos(ws, c);
                    proof {
                        if r is Some {
                            lemma_find_window_pos_bound(ws.deep_view(), c as int);
                        }
                    }
                    r
                },
                None => if c < count {
                    Some(c)
                } else {
                    None
                },
            },
        }
    }

    /// Select the next tab of the current dimension: live windows by
    /// position in the given list when the session is live, configured
    /// tabs otherwise; stepping past the end selects the dimension
    /// itself. Nothing happens without dimensions.
    pub fn next_tab(&mut self, live_windows: Option<&Vec<LiveWindow>>)
        requires
            old(self).wf(),
        ensures
            final(self).wf(),
            old(self)@.config.dimensions.len() == 0 ==> final(self)@ == old(self)@,
            old(self)@.config.dimensions.len() > 0 ==> final(self)@ == (AppModel {
                selected_tab: next_tab_selection(
                    live_windows.deep_view(),
                    old(self)@.config.dimensions[old(self)@.selected_dimension].tabs,
                    old(self)@.selected_tab,
                ),
                ..old(self)@
            }),
    {
        if self.config.dimensions.len() == 0 {
            return ;
        }
        let count: usize = match live_windows {
            Some(ws) => ws.len(),
            None => self.config.dimensions[self.selected_dimension].tabs.len(),
        };
        let pos = self.selection_position_exec(live_windows, count);
        let next: Option<usize> = match pos {
            None => if count > 0 {
                Some(0)
            } else {
                None
            },
            Some(p) => if p + 1 < count {
                Some(p + 1)
            } else {
                None
            },
        };
        self.set_selection_from_position(live_windows, next);
    }

    /// Select the previous tab of the current dimension; stepping past
    /// the first tab selects the dimension itself, and from the
    /// dimension the last tab. Nothing happens without dimensions.
    pub fn previous_tab(&mut self, live_windows: Option<&Vec<LiveWindow>>)
        requires
            old(self).wf(),
        ensures
            final(self).wf(),
            old(self)@.config.dimensions.len() == 0 ==> final(self)@ == old(self)@,
            old(self)@.config.dimensions.len() > 0 ==> final(self)@ == (AppModel {
                selected_tab: prev_tab_selection(
                    live_windows.deep_view(),
                    old(self)@.config.dimensions[old(self)@.selected_dimension].tabs,
                    old(self)@.selected_tab,
                ),
                ..old(self)@
            }),
    {
        if self.config.dimensions.len() == 0 {
            return ;
        }
        let count: usize = match live_windows {
            Some(ws) => ws.len(),
            None => self.config.dimensions[self.selected_dimension].tabs.len(),
        };
        let pos = self.selection_position_exec(live_windows, count);
        let prev: Option<usize> = match pos {
            None => if count > 0 {
                Some(count - 1)
            } else {
                None
            },
            Some(p) => if p == 0 || p >= count {
                None
            } else {
                Some(p - 1)
            },
        };
        self.set_selection_from_position(live_windows, prev);
    }
}

/// A field-preserving copy of an optional string.
fn clone_opt_string(o: &Option<String>) -> (r: Option<String>)
    ensures
        r.deep_view() == o.deep_view(),
{
    match o {
        Some(s) => Some(s.clone()),
        None => None,
    }
}

impl App {
    /// Creates a dimension: refused with an error, and with nothing
    /// changed, when the name is already taken; otherwise the dimension
    /// is appended with no tabs and the given base directory. The
    /// session itself is only created on switch-to.
    pub fn create_dimension(&mut self, name: String, base_dir: Option<String>) -> (r: Result<
        (),
        String,
    >)
        requires
            old(self).wf(),
        ensures
            final(self).wf(),
            has_dim(old(self)@.config, name@) ==> (r matches Err(m) && m@ == "Dimension '"@ + name@
                + "' already exists"@) && final(self)@ == old(self)@,
            !has_dim(old(self)@.config, name@) ==> r is Ok && final(self)@ == (AppModel {
                config: ConfigModel {
                    dimensions: old(self)@.config.dimensions.push(
                        DimensionModel {
                            name: name@,
                            tabs: Seq::<TabModel>::empty(),
                            base_dir: base_dir.deep_view(),
                            collapsed: false,
                        },
                    ),
                    ..old(self)@.config
                },
                message: Some("Created dimension: "@ + name@),
                ..old(self)@
            }),
    {
        if self.config.get_dimension(name.as_str()).is_some() {
            let mut m: String = "Dimension '".to_owned();
            m.append(name.as_str());
            m.append("' already exists");
            return Err(m);
        }
        let ghost pre = self@;
        let d = Dimension { name: name.clone(), tabs: Vec::new(), base_dir, collapsed: false };
        proof {
            assert(d@ == (DimensionModel {
                name: name@,
                tabs: Seq::<TabModel>::empty(),
                base_dir: d.base_dir.deep_view(),
                collapsed: false,
            })) by {
                assert(d.tabs.deep_view() =~= Seq::<TabModel>::empty());
            }
        }
        self.config.add_dimension(d);
        let mut m: String = "Created dimension: ".to_owned();
        m.append(name.as_str());
        self.set_message(m);
        proof {
            let post = self@.config.dimensions;
            assert forall|i: int, j: int| 0 <= i < j < post.len() implies post[i].name
                != post[j].name by {
                if j == post.len() - 1 {
                    assert(!has_dim(pre.config, name@));
                    assert(pre.config.dimensions[i].name != name@);
                }
            }
        }
        Ok(())
    }

    /// Deletes the dimension with this name: refused with an error when
    /// no dimension carries it; otherwise it is removed, the selection
    /// is clamped back into range with no tab selected, and — when its
    /// session is live — the caller is told to kill that session.
    pub fn delete_dimension(&mut self, name: &str, session_exists: bool) -> (r: Result<
        Vec<BackendCommand>,
        String,
    >)
        requires
            old(self).wf(),
        ensures
            final(self).wf(),
            !has_dim(old(self)@.config, name@) ==> (r matches Err(m) && m@ == "Dimension '"@
                + name@ + "' not found"@) && final(self)@ == old(self)@,
            has_dim(old(self)@.config, name@) ==> (r matches Ok(cmds) && {
                &&& removed_first(
                    old(self)@.config.dimensions,
                    final(self)@.config.dimensions,
                    name@,
                )
                &&& final(self)@ == (AppModel {
                    config: ConfigModel {
                        dimensions: final(self)@.config.dimensions,
                        ..old(self)@.config
                    },
                    selected_dimension: if old(self)@.selected_dimension
                        >= final(self)@.config.dimensions.len() && old(self)@.selected_dimension
                        > 0 {
                        old(self)@.selected_dimension - 1
                    } else {
                        old(self)@.selected_dimension
                    },
                    selected_tab: None,
                    message: Some("Deleted dimension: "@ + name@),
                    ..old(self)@
                })
                &&& cmds.deep_view() == if session_exists {
                    seq![CommandModel::KillSession { name: name@ }]
                } else {
                    Seq::<CommandModel>::empty()
                }
            }),
    {
        let removed = self.config.remove_dimension(name);
        if removed.is_none() {
            let mut m: String = "Dimension '".to_owned();
            m.append(name);
            m.append("' not found");
            return Err(m);
        }
        let mut cmds: Vec<BackendCommand> = Vec::new();
        if session_exists {
            cmds.push(BackendCommand::KillSession { name: name.to_owned() });
        }
        proof {
            if session_exists {
                assert(cmds.deep_view() =~= seq![CommandModel::KillSession { name: name@ }]);
            } else {
                assert(cmds.deep_view() =~= Seq::<CommandModel>::empty());
            }
        }
        let mut m: String = "Deleted dimension: ".to_owned();
        m.append(name);
        self.set_message(m);
        if self.selected_dimension >= self.config.dimensions.len() && self.selected_dimension > 0 {
            self.selected_dimension = self.selected_dimension - 1;
        }
        self.selected_tab = None;
        Ok(cmds)
    }

    /// Folds or unfolds the selected dimension's tab list in the
    /// presentation; nothing happens without dimensions.
    pub fn toggle_collapse_dimension(&mut self)
        requires
            old(self).wf(),
        ensures
            final(self).wf(),
            old(self)@.config.dimensions.len() == 0 ==> final(self)@ == old(self)@,
            old(self)@.config.dimensions.len() > 0 ==> final(self)@ == (AppModel {
                config: ConfigModel {
                    dimensions: old(self)@.config.dimensions.update(
                        old(self)@.selected_dimension,
                        DimensionModel {
                            collapsed: !old(self)@.config.dimensions[old(
                                self,
                            )@.selected_dimension].collapsed,
                            ..old(self)@.config.dimensions[old(self)@.selected_dimension]
                        },
                    ),
                    ..old(self)@.config
                },
                ..old(self)@
            }),
    {
        if self.config.dimensions.len() == 0 {
            return ;
        }
        let sel = self.selected_dimension;
        let ghost pre = self@.config.dimensions;
        let mut d = self.config.dimensions.remove(sel);
        d.collapsed = !d.collapsed;
        self.config.dimensions.insert(sel, d);
        proof {
            assert(self@.config.dimensions =~= pre.update(
                sel as int,
                DimensionModel { collapsed: !pre[sel as int].collapsed, ..pre[sel as int] },
            ));
            assert forall|i: int, j: int|
                0 <= i < j < self@.config.dimensions.len() implies self@.config.dimensions[i].name
                != self@.config.dimensions[j].name by {
                assert(pre[i].name != pre[j].name);
            }
        }
    }

    /// Adds a tab template to the selected dimension, its working
    /// directory the dimension's base directory or, failing that, the
    /// given current directory. Only when the session is already live is
    /// a matching window created. Nothing happens without dimensions.
    pub fn add_tab_to_current_dimension(
        &mut self,
        name: String,
        command: Option<String>,
        cwd: &str,
        session_exists: bool,
    ) -> (cmds: Vec<BackendCommand>)
        requires
            old(self).wf(),
        ensures
            final(self).wf(),
            old(self)@.config.dimensions.len() == 0 ==> final(self)@ == old(self)@
                && cmds.deep_view() == Seq::<CommandModel>::empty(),
            old(self)@.config.dimensions.len() > 0 ==> ({
                let d = old(self)@.config.dimensions[old(self)@.selected_dimension];
                let wd = match d.base_dir {
                    Some(b) => b,
                    None => cwd@,
                };
                let tab = TabModel {
                    name: name@,
                    command: command.deep_view(),
                    working_dir: Some(wd),
                };
                &&& final(self)@ == (AppModel {
                    config: ConfigModel {
                        dimensions: old(self)@.config.dimensions.update(
                            old(self)@.selected_dimension,
                            DimensionModel { tabs: d.tabs.push(tab), ..d },
                        ),
                        ..old(self)@.config
                    },
                    message: Some("Added tab: "@ + name@),
                    ..old(self)@
                })
                &&& cmds.deep_view() == if session_exists {
                    seq![
                        CommandModel::NewWindow {
                            session: d.name,
                            name: name@,
                            command: command.deep_view(),
                            dir: Some(wd),
                        },
                    ]
                } else {
                    Seq::<CommandModel>::empty()
                }
            }),
    {
        if self.config.dimensions.len() == 0 {
            let cmds: Vec<BackendCommand> = Vec::new();
            proof {
                assert(cmds.deep_view() =~= Seq::<CommandModel>::empty());
            }
            return cmds;
        }
        let sel = self.selected_dimension;
        let ghost pre = self@.config.dimensions;
        let mut d = self.config.dimensions.remove(sel);
        let wd: String = match &d.base_dir {
            Some(b) => b.clone(),
            None => cwd.to_owned(),
        };
        let tab = Tab {
            name: name.clone(),
            command: clone_opt_string(&command),
            working_dir: Some(wd.clone()),
        };
        let mut cmds: Vec<BackendCommand> = Vec::new();
        if session_exists {
            cmds.push(
                BackendCommand::NewWindow {
                    session: d.name.clone(),
                    name: name.clone(),
                    command,
                    dir: Some(wd),
                },
            );
        }
        d.tabs.push(tab);
        proof {
            assert(d.tabs.deep_view() =~= pre[sel as int].tabs.push(tab@));
        }
        self.config.dimensions.insert(sel, d);
        let mut m: String = "Added tab: ".to_owned();
        m.append(name.as_str());
        self.set_message(m);
        proof {
            let dnew = DimensionModel { tabs: pre[sel as int].tabs.push(tab@), ..pre[sel as int] };
            assert(self@.config.dimensions =~= pre.update(sel as int, dnew));
            if session_exists {
                assert(cmds.deep_view() =~= seq![
                    CommandModel::NewWindow {
                        session: pre[sel as int].name,
                        name: name@,
                        command: tab@.command,
                        dir: tab@.working_dir,
                    },
                ]);
            } else {
                assert(cmds.deep_view() =~= Seq::<CommandModel>::empty());
            }
            assert forall|i: int, j: int|
                0 <= i < j < self@.config.dimensions.len() implies self@.config.dimensions[i].name
                != self@.config.dimensions[j].name by {
                assert(pre[i].name != pre[j].name);
            }
        }
        cmds
    }
}

/// The keystrokes sent for a tab's command: the command, preceded by a
/// change into its working directory when it has one.
pub open spec fn command_keys(cmd: Seq<char>, wd: Option<Seq<char>>) -> Seq<char> {
    match wd {
        Some(w) => "cd "@ + w + " && "@ + cmd,
        None => cmd,
    }
}

/// The name of the tab created ad hoc for a dimension without templates.
pub open spec fn adhoc_tab_name(session: Seq<char>) -> Seq<char> {
    session + "-1"@
}

/// The commands that set up the session's initial window as the first
/// configured tab: rename it, then type the tab's command if it has one.
pub open spec fn first_tab_commands(session: Seq<char>, t: TabModel) -> Seq<CommandModel> {
    seq![CommandModel::RenameWindow { session, index: 0, name: t.name }] + (match t.command {
        Some(c) => seq![
            CommandModel::SendKeys { session, index: 0, keys: command_keys(c, t.working_dir) },
        ],
        None => Seq::<CommandModel>::empty(),
    })
}

/// The commands that create one window per remaining configured tab.
pub open spec fn rest_tab_commands(session: Seq<char>, tabs: Seq<TabModel>) -> Seq<CommandModel>
    decreases tabs.len(),
{
    if tabs.len() == 0 {
        Seq::<CommandModel>::empty()
    } else {
        seq![
            CommandModel::NewWindow {
                session,
                name: tabs[0].name,
                command: tabs[0].command,
                dir: tabs[0].working_dir,
            },
        ] + rest_tab_commands(session, tabs.drop_first())
    }
}

/// Everything the backend must do to materialize a dimension whose
/// session does not exist yet: create the session at its base directory,
/// configure the status line, then either realize the configured tabs in
/// order or rename the initial window to the ad-hoc tab.
pub open spec fn materialize_commands(d: DimensionModel) -> Seq<CommandModel> {
    let head = seq![
        CommandModel::CreateSession { name: d.name, base_dir: d.base_dir },
        CommandModel::SetMinimalStatusBar,
    ];
    if d.tabs.len() > 0 {
        head + first_tab_commands(d.name, d.tabs[0]) + rest_tab_commands(
            d.name,
            d.tabs.drop_first(),
        )
    } else {
        head + seq![
            CommandModel::RenameWindow { session: d.name, index: 0, name: adhoc_tab_name(d.name) },
        ]
    }
}

/// Unrolling `rest_tab_commands` one tab at a time, front to back.
proof fn lemma_rest_tab_commands_take_step(session: Seq<char>, tabs: Seq<TabModel>, i: int)
    requires
        0 <= i < tabs.len(),
    ensures
        rest_tab_commands(session, tabs.take(i + 1)) == rest_tab_commands(session, tabs.take(i))
            + seq![
            CommandModel::NewWindow {
                session,
                name: tabs[i].name,
                command: tabs[i].command,
                dir: tabs[i].working_dir,
            },
        ],
    decreases i,
{
    let a = tabs.take(i + 1);
    if i == 0 {
        assert(a.drop_first() =~= tabs.take(0));
        assert(rest_tab_commands(session, tabs.take(0)) =~= Seq::<CommandModel>::empty());
        assert(a[0] == tabs[0]);
        assert(rest_tab_commands(session, a) =~= seq![
            CommandModel::NewWindow {
                session,
                name: tabs[0].name,
                command: tabs[0].command,
                dir: tabs[0].working_dir,
            },
        ] + rest_tab_commands(session, a.drop_first()));
    } else {
        assert(a.drop_first() =~= tabs.drop_first().take(i));
        assert(tabs.take(i).drop_first() =~= tabs.drop_first().take(i - 1));
        lemma_rest_tab_commands_take_step(session, tabs.drop_first(), i - 1);
        assert(tabs.drop_first()[i - 1] == tabs[i]);
        assert(a[0] == tabs[0]);
        assert(tabs.take(i)[0] == tabs[0]);
    }
}

/// The window index the attach target uses. A selection in live-index
/// space is kept when the window still exists and falls back to the
/// first window otherwise; a selection in configured-tab space is
/// translated through the freshly created window list; no selection
/// resolves to window 0, and when the window list could not be fetched
/// the raw selection is used as it stands.
pub open spec fn resolve_window_index(
    cur: Option<int>,
    pre_existed: bool,
    windows: Option<Seq<LiveWindowModel>>,
) -> int {
    match cur {
        None => 0,
        Some(sel) => match windows {
            None => sel,
            Some(ws) => if pre_existed {
                match find_window_pos(ws, sel) {
                    Some(p) => sel,
                    None => if ws.len() > 0 {
                        ws[0].index
                    } else {
                        0
                    },
                }
            } else {
                if 0 <= sel < ws.len() {
                    ws[sel].index
                } else {
                    0
                }
            },
        },
    }
}

impl App {
    /// Makes the selected dimension's session exist: a no-op when it
    /// already does (switching twice never recreates windows), else the
    /// full materialization command list; a dimension without templates
    /// gets one ad-hoc tab which is also recorded in its template list,
    /// so the next materialization recreates the same layout. Nothing
    /// happens without dimensions.
    pub fn switch_to_dimension(&mut self, session_exists: bool) -> (cmds: Vec<BackendCommand>)
        requires
            old(self).wf(),
        ensures
            final(self).wf(),
            old(self)@.config.dimensions.len() == 0 ==> final(self)@ == old(self)@
                && cmds.deep_view() == Seq::<CommandModel>::empty(),
            old(self)@.config.dimensions.len() > 0 && session_exists ==> final(self)@ == old(self)@
                && cmds.deep_view() == Seq::<CommandModel>::empty(),
            old(self)@.config.dimensions.len() > 0 && !session_exists ==> ({
                let d = old(self)@.config.dimensions[old(self)@.selected_dimension];
                &&& cmds.deep_view() == materialize_commands(d)
                &&& (d.tabs.len() > 0 ==> final(self)@ == old(self)@)
                &&& (d.tabs.len() == 0 ==> final(self)@ == (AppModel {
                    config: ConfigModel {
                        dimensions: old(self)@.config.dimensions.update(
                            old(self)@.selected_dimension,
                            DimensionModel {
                                tabs: seq![
                                    TabModel {
                                        name: adhoc_tab_name(d.name),
                                        command: None,
                                        working_dir: None,
                                    },
                                ],
                                ..d
                            },
                        ),
                        ..old(self)@.config
                    },
                    ..old(self)@
                }))
            }),
    {
        let mut cmds: Vec<BackendCommand> = Vec::new();
        if self.config.dimensions.len() == 0 || session_exists {
            proof {
                assert(cmds.deep_view() =~= Seq::<CommandModel>::empty());
            }
            return cmds;
        }
        let sel = self.selected_dimension;
        let name: String = self.config.dimensions[sel].name.clone();
        let base_dir = clone_opt_string(&self.config.dimensions[sel].base_dir);
        cmds.push(BackendCommand::CreateSession { name: name.clone(), base_dir });
        cmds.push(BackendCommand::SetMinimalStatusBar);
        let ghost head = seq![
            CommandModel::CreateSession {
                name: name@,
                base_dir: old(self)@.config.dimensions[sel as int].base_dir,
            },
            CommandModel::SetMinimalStatusBar,
        ];
        proof {
            assert(cmds.deep_view() =~= head);
        }
        let tab_count = self.config.dimensions[sel].tabs.len();
        if tab_count > 0 {
            let t0_name: String = self.config.dimensions[sel].tabs[0].name.clone();
            cmds.push(
                BackendCommand::RenameWindow { session: name.clone(), index: 0, name: t0_name },
            );
            let ghost d = old(self)@.config.dimensions[sel as int];
            match &self.config.dimensions[sel].tabs[0].command {
                Some(c) => {
                    let keys: String = match &self.config.dimensions[sel].tabs[0].working_dir {
                        Some(w) => {
                            let mut k: String = "cd ".to_owned();
                            k.append(w.as_str());
                            k.append(" && ");
                            k.append(c.as_str());
                            k
                        },
                        None => c.clone(),
                    };
                    cmds.push(
                        BackendCommand::SendKeys { session: name.clone(), index: 0, keys },
                    );
                },
                None => {},
            }
            proof {
                assert(cmds.deep_view() =~= head + first_tab_commands(d.name, d.tabs[0]));
            }
            let ghost rest = d.tabs.drop_first();
            let ghost base = head + first_tab_commands(d.name, d.tabs[0]);
            let mut i: usize = 1;
            while i < tab_count
                invariant
                    old(self).wf(),
                    self@ == old(self)@,
                    sel == old(self)@.selected_dimension,
                    0 < sel + 1 <= self@.config.dimensions.len(),
                    sel < self@.config.dimensions.len(),
                    name@ == self@.config.dimensions[sel as int].name,
                    d == self@.config.dimensions[sel as int],
                    rest == d.tabs.drop_first(),
                    tab_count == d.tabs.len(),
                    1 <= i <= tab_count,
                    cmds.deep_view() == base + rest_tab_commands(d.name, rest.take(i - 1)),
                decreases tab_count - i,
            {
                let tname: String = self.config.dimensions[sel].tabs[i].name.clone();
                let tcmd = clone_opt_string(&self.config.dimensions[sel].tabs[i].command);
                let tdir = clone_opt_string(&self.config.dimensions[sel].tabs[i].working_dir);
                let ghost pre_cmds = cmds.deep_view();
                cmds.push(
                    BackendCommand::NewWindow {
                        session: name.clone(),
                        name: tname,
                        command: tcmd,
                        dir: tdir,
                    },
                );
                proof {
                    lemma_rest_tab_commands_take_step(d.name, rest, i - 1);
                    assert(rest[i - 1] == d.tabs[i as int]);
                    assert(cmds.deep_view() =~= pre_cmds + seq![
                        CommandModel::NewWindow {
                            session: d.name,
                            name: d.tabs[i as int].name,
                            command: d.tabs[i as int].command,
                            dir: d.tabs[i as int].working_dir,
                        },
                    ]);
                }
                i = i + 1;
            }
            proof {
                assert(rest.take(tab_count - 1) =~= rest);
                assert(cmds.deep_view() =~= materialize_commands(d));
            }
        } else {
            let mut adhoc: String = name.clone();
            adhoc.append("-1");
            cmds.push(
                BackendCommand::RenameWindow {
                    session: name.clone(),
                    index: 0,
                    name: adhoc.clone(),
                },
            );
            let ghost pre = self@.config.dimensions;
            let mut dim = self.config.dimensions.remove(sel);
            dim.tabs.push(Tab { name: adhoc, command: None, working_dir: None });
            proof {
                assert(dim.tabs.deep_view() =~= seq![
                    TabModel {
                        name: adhoc_tab_name(pre[sel as int].name),
                        command: None,
                        working_dir: None,
                    },
                ]);
            }
            self.config.dimensions.insert(sel, dim);
            proof {
                let d0 = pre[sel as int];
                assert(self@.config.dimensions =~= pre.update(
                    sel as int,
                    DimensionModel {
                        tabs: seq![
                            TabModel {
                                name: adhoc_tab_name(d0.name),
                                command: None,
                                working_dir: None,
                            },
                        ],
                        ..d0
                    },
                ));
                assert(cmds.deep_view() =~= materialize_commands(d0));
                assert forall|a: int, b: int|
                    0 <= a < b < self@.config.dimensions.len() implies self@.config.dimensions[
                    a].name != self@.config.dimensions[b].name by {
                    assert(pre[a].name != pre[b].name);
                }
            }
        }
        cmds
    }

    /// Records the attach target for the selected dimension — its
    /// session name and the resolved window index — and quits the loop
    /// without detaching. Nothing happens without dimensions.
    pub fn resolve_switch_target(
        &mut self,
        pre_existed: bool,
        windows: Option<&Vec<LiveWindow>>,
    )
        requires
            old(self).wf(),
        ensures
            final(self).wf(),
            old(self)@.config.dimensions.len() == 0 ==> final(self)@ == old(self)@,
            old(self)@.config.dimensions.len() > 0 ==> final(self)@ == (AppModel {
                should_attach: Some(
                    old(self)@.config.dimensions[old(self)@.selected_dimension].name,
                ),
                should_select_window: Some(
                    resolve_window_index(
                        old(self)@.selected_tab,
                        pre_existed,
                        windows.deep_view(),
                    ),
                ),
                should_quit: true,
                should_detach: false,
                ..old(self)@
            }),
    {
        if self.config.dimensions.len() == 0 {
            return ;
        }
        let wi: usize = match self.selected_tab {
            None => 0,
            Some(sel_tab) => match windows {
                None => sel_tab,
                Some(ws) => if pre_existed {
                    match find_pos(ws, sel_tab) {
                        Some(_) => sel_tab,
                        None => if ws.len() > 0 {
                            ws[0].index
                        } else {
                            0
                        },
                    }
                } else {
                    if sel_tab < ws.len() {
                        ws[sel_tab].index
                    } else {
                        0
                    }
                },
            },
        };
        self.should_attach = Some(self.config.dimensions[self.selected_dimension].name.clone());
        self.should_select_window = Some(wi);
        self.quit_without_detach();
    }
}

/// The position of the first tab template with this name, if any.
pub open spec fn first_tab_named(tabs: Seq<TabModel>, name: Seq<char>) -> Option<int>
    decreases tabs.len(),
{
    if tabs.len() == 0 {
        None
    } else if tabs[0].name == name {
        Some(0)
    } else {
        match first_tab_named(tabs.drop_first(), name) {
            Some(p) => Some(p + 1),
            None => None,
        }
    }
}

/// The template list with its first tab of this name removed, when one
/// exists.
pub open spec fn remove_template(tabs: Seq<TabModel>, name: Seq<char>) -> Seq<TabModel> {
    match first_tab_named(tabs, name) {
        Some(i) => tabs.remove(i),
        None => tabs,
    }
}

proof fn lemma_first_tab_named_some(tabs: Seq<TabModel>, name: Seq<char>, i: int)
    requires
        0 <= i < tabs.len(),
        tabs[i].name == name,
        forall|k: int| 0 <= k < i ==> tabs[k].name != name,
    ensures
        first_tab_named(tabs, name) == Some(i),
    decreases i,
{
    if i > 0 {
        lemma_first_tab_named_some(tabs.drop_first(), name, i - 1);
    }
}

proof fn lemma_first_tab_named_none(tabs: Seq<TabModel>, name: Seq<char>)
    requires
        forall|k: int| 0 <= k < tabs.len() ==> tabs[k].name != name,
    ensures
        first_tab_named(tabs, name) is None,
    decreases tabs.len(),
{
    if tabs.len() > 0 {
        lemma_first_tab_named_none(tabs.drop_first(), name);
    }
}

proof fn lemma_first_tab_named_bound(tabs: Seq<TabModel>, name: Seq<char>)
    ensures
        first_tab_named(tabs, name) matches Some(p) ==> 0 <= p < tabs.len(),
    decreases tabs.len(),
{
    if tabs.len() > 0 && tabs[0].name != name {
        lemma_first_tab_named_bound(tabs.drop_first(), name);
    }
}

/// Locates the first tab template carrying this name.
fn find_tab_named(tabs: &Vec<Tab>, name: &str) -> (r: Option<usize>)
    ensures
        opt_int(r) == first_tab_named(tabs.deep_view(), name@),
        r matches Some(p) ==> p < tabs.deep_view().len(),
{
    let needle: String = name.to_owned();
    let mut i: usize = 0;
    while i < tabs.len()
        invariant
            needle@ == name@,
            i <= tabs.deep_view().len(),
            forall|k: int| 0 <= k < i ==> tabs.deep_view()[k].name != name@,
        decreases tabs.len() - i,
    {
        if tabs[i].name == needle {
            proof {
                lemma_first_tab_named_some(tabs.deep_view(), name@, i as int);
            }
            return Some(i);
        }
        i = i + 1;
    }
    proof {
        lemma_first_tab_named_none(tabs.deep_view(), name@);
    }
    None
}

impl App {
    /// Removes the selected tab. With a live session, the selected live
    /// window is killed, the template of the same name (if any) is
    /// dropped, and the selection moves to the first surviving window —
    /// or to the dimension itself when none survive; when the killed
    /// window was the one this process sits inside, the caller is asked
    /// (second result `true`) to re-query the client's current window
    /// and hand it to `adopt_current_window` instead. Without a live
    /// session, the template at the selected position is removed and the
    /// selection is clamped, collapsing to the dimension at zero tabs.
    pub fn remove_tab_from_current_dimension(&mut self, live: Option<&Vec<LiveWindow>>) -> (r: (
        Vec<BackendCommand>,
        bool,
    ))
        requires
            old(self).wf(),
        ensures
            final(self).wf(),
            old(self)@.selected_tab is None || old(self)@.config.dimensions.len() == 0
                ==> final(self)@ == old(self)@ && r.0.deep_view() == Seq::<CommandModel>::empty()
                && !r.1,
            old(self)@.selected_tab is Some && old(self)@.config.dimensions.len() > 0
                ==> ({
                let idx = old(self)@.selected_tab->Some_0;
                let d = old(self)@.config.dimensions[old(self)@.selected_dimension];
                match live.deep_view() {
                    Some(ws) => match find_window_pos(ws, idx) {
                        None => final(self)@ == old(self)@ && r.0.deep_view() == Seq::<
                            CommandModel,
                        >::empty() && !r.1,
                        Some(p) => {
                            let wname = ws[p].name;
                            let survivors = ws.remove(p);
                            let requery = survivors.len() > 0 && old(self)@.current_session
                                == Some(d.name) && old(self)@.current_window == Some(idx);
                            &&& r.0.deep_view() == seq![
                                CommandModel::KillWindow { session: d.name, index: idx },
                            ]
                            &&& r.1 == requery
                            &&& final(self)@ == (AppModel {
                                config: ConfigModel {
                                    dimensions: old(self)@.config.dimensions.update(
                                        old(self)@.selected_dimension,
                                        DimensionModel {
                                            tabs: remove_template(d.tabs, wname),
                                            ..d
                                        },
                                    ),
                                    ..old(self)@.config
                                },
                                selected_tab: if survivors.len() == 0 {
                                    None
                                } else if requery {
                                    old(self)@.selected_tab
                                } else {
                                    Some(survivors[0].index)
                                },
                                message: Some("Removed tab: "@ + wname),
                                ..old(self)@
                            })
                        },
                    },
                    None => {
                        if 0 <= idx < d.tabs.len() {
                            let newlen = d.tabs.len() - 1;
                            &&& r.0.deep_view() == Seq::<CommandModel>::empty()
                            &&& !r.1
                            &&& final(self)@ == (AppModel {
                                config: ConfigModel {
                                    dimensions: old(self)@.config.dimensions.update(
                                        old(self)@.selected_dimension,
                                        DimensionModel { tabs: d.tabs.remove(idx), ..d },
                                    ),
                                    ..old(self)@.config
                                },
                                selected_tab: if newlen == 0 {
                                    None
                                } else if idx >= newlen {
                                    Some(newlen - 1)
                                } else {
                                    Some(idx)
                                },
                                message: Some("Removed tab: "@ + d.tabs[idx].name),
                                ..old(self)@
                            })
                        } else {
                            final(self)@ == old(self)@ && r.0.deep_view() == Seq::<
                                CommandModel,
                            >::empty() && !r.1
                        }
                    },
                }
            }),
    {
        let empty_cmds: Vec<BackendCommand> = Vec::new();
        proof {
            assert(empty_cmds.deep_view() =~= Seq::<CommandModel>::empty());
        }
        let idx = match self.selected_tab {
            Some(i) => i,
            None => {
                return (empty_cmds, false);
            },
        };
        if self.config.dimensions.len() == 0 {
            return (empty_cmds, false);
        }
        let sel = self.selected_dimension;
        match live {
            Some(ws) => {
                let p = match find_pos(ws, idx) {
                    Some(p) => p,
                    None => {
                        return (empty_cmds, false);
                    },
                };
                let wname: String = ws[p].name.clone();
                let session: String = self.config.dimensions[sel].name.clone();
                let mut cmds: Vec<BackendCommand> = Vec::new();
                cmds.push(BackendCommand::KillWindow { session: session.clone(), index: idx });
                proof {
                    assert(cmds.deep_view() =~= seq![
                        CommandModel::KillWindow {
                            session: old(self)@.config.dimensions[sel as int].name,
                            index: idx as int,
                        },
                    ]);
                }
                let ghost pre = self@.config.dimensions;
                let mut d = self.config.dimensions.remove(sel);
                match find_tab_named(&d.tabs, wname.as_str()) {
                    Some(ti) => {
                        let ghost pretabs = d.tabs.deep_view();
                        let removed = d.tabs.remove(ti);
                        proof {
                            assert(d.tabs.deep_view() =~= pretabs.remove(ti as int));
                        }
                    },
                    None => {},
                }
                self.config.dimensions.insert(sel, d);
                proof {
                    let d0 = pre[sel as int];
                    assert(self@.config.dimensions =~= pre.update(
                        sel as int,
                        DimensionModel { tabs: remove_template(d0.tabs, wname@), ..d0 },
                    ));
                    assert forall|a: int, b: int|
                        0 <= a < b < self@.config.dimensions.len() implies self@.config.dimensions[
                        a].name != self@.config.dimensions[b].name by {
                        assert(pre[a].name != pre[b].name);
                    }
                }
                let mut m: String = "Removed tab: ".to_owned();
                m.append(wname.as_str());
                self.set_message(m);
                let survivors_len = ws.len() - 1;
                let requery = survivors_len > 0 && self.is_inside_window(&session, idx);
                if survivors_len == 0 {
                    self.selected_tab = None;
                } else if requery {
                    // the caller re-queries the client's current window
                } else {
                    let first_idx = if p == 0 {
                        ws[1].index
                    } else {
                        ws[0].index
                    };
                    self.selected_tab = Some(first_idx);
                    proof {
                        let ghost wsm = ws.deep_view();
                        assert(wsm.remove(p as int)[0] == (if p == 0 {
                            wsm[1]
                        } else {
                            wsm[0]
                        }));
                    }
                }
                (cmds, requery)
            },
            None => {
                let tab_len = self.config.dimensions[sel].tabs.len();
                if idx >= tab_len {
                    return (empty_cmds, false);
                }
                let ghost pre = self@.config.dimensions;
                let mut d = self.config.dimensions.remove(sel);
                let removed = d.tabs.remove(idx);
                proof {
                    assert(d.tabs.deep_view() =~= pre[sel as int].tabs.remove(idx as int));
                }
                self.config.dimensions.insert(sel, d);
                proof {
                    let d0 = pre[sel as int];
                    assert(self@.config.dimensions =~= pre.update(
                        sel as int,
                        DimensionModel { tabs: d0.tabs.remove(idx as int), ..d0 },
                    ));
                    assert forall|a: int, b: int|
                        0 <= a < b < self@.config.dimensions.len() implies self@.config.dimensions[
                        a].name != self@.config.dimensions[b].name by {
                        assert(pre[a].name != pre[b].name);
                    }
                }
                let mut m: String = "Removed tab: ".to_owned();
                m.append(removed.name.as_str());
                self.set_message(m);
                let newlen = tab_len - 1;
                if newlen == 0 {
                    self.selected_tab = None;
                } else if idx >= newlen {
                    self.selected_tab = Some(newlen - 1);
                } else {
                    self.selected_tab = Some(idx);
                }
                (empty_cmds, false)
            },
        }
    }

    /// Whether this process's client sits in the given window of the
    /// given session.
    fn is_inside_window(&self, session: &String, idx: usize) -> (b: bool)
        ensures
            b == (self@.current_session == Some(session@) && self@.current_window == Some(
                idx as int,
            )),
    {
        let in_session = match &self.current_session {
            Some(s) => *s == *session,
            None => false,
        };
        let in_window = match self.current_window {
            Some(w) => w == idx,
            None => false,
        };
        in_session && in_window
    }

    /// Adopts the window the client now sits in — re-queried by the
    /// caller after a kill — as both the selection and the remembered
    /// current window.
    pub fn adopt_current_window(&mut self, idx: Option<usize>)
        ensures
            final(self)@ == (AppModel {
                selected_tab: opt_int(idx),
                current_window: opt_int(idx),
                ..old(self)@
            }),
    {
        self.selected_tab = idx;
        self.current_window = idx;
    }
}

impl App {
    /// Enter dimension-name entry.
    pub fn start_create_dimension(&mut self)
        ensures
            final(self)@ == (AppModel {
                input_mode: InputMode::CreatingDimensionName,
                input_buffer: Seq::<char>::empty(),
                pending_dimension_name: None,
                completion: None,
                message: None,
                ..old(self)@
            }),
    {
        self.input_mode = InputMode::CreatingDimensionName;
        self.input_buffer = String::new();
        self.pending_dimension_name = None;
        self.completion = None;
        self.message = None;
    }

    /// Enter tab entry.
    pub fn start_add_tab(&mut self)
        ensures
            final(self)@ == (AppModel {
                input_mode: InputMode::AddingTab,
                input_buffer: Seq::<char>::empty(),
                message: None,
                ..old(self)@
            }),
    {
        self.input_mode = InputMode::AddingTab;
        self.input_buffer = String::new();
        self.message = None;
    }

    /// Ask for confirmation before deleting the selected dimension.
    pub fn start_delete_dimension(&mut self)
        ensures
            final(self)@ == (AppModel {
                input_mode: InputMode::DeletingDimension,
                message: None,
                ..old(self)@
            }),
    {
        self.input_mode = InputMode::DeletingDimension;
        self.message = None;
    }

    /// Ask for confirmation before deleting the selected tab.
    pub fn start_delete_tab(&mut self)
        ensures
            final(self)@ == (AppModel {
                input_mode: InputMode::DeletingTab,
                message: None,
                ..old(self)@
            }),
    {
        self.input_mode = InputMode::DeletingTab;
        self.message = None;
    }

    /// Enter live search, remembering the selection so that cancelling
    /// can restore it.
    pub fn start_search(&mut self)
        ensures
            final(self)@ == (AppModel {
                input_mode: InputMode::Searching,
                input_buffer: Seq::<char>::empty(),
                search_query: Seq::<char>::empty(),
                search_results: Seq::<SearchResultModel>::empty(),
                search_selected_index: 0,
                last_computed_query: Seq::<char>::empty(),
                pre_search_dimension: old(self)@.selected_dimension,
                pre_search_tab: old(self)@.selected_tab,
                message: None,
                ..old(self)@
            }),
    {
        self.input_mode = InputMode::Searching;
        self.input_buffer = String::new();
        self.search_query = String::new();
        self.last_computed_query = String::new();
        self.search_results = Vec::new();
        self.search_selected_index = 0;
        self.pre_search_dimension = self.selected_dimension;
        self.pre_search_tab = self.selected_tab;
        self.message = None;
        proof {
            assert(self.search_results.deep_view() =~= Seq::<SearchResultModel>::empty());
        }
    }

    /// Leaves input entry: back to normal mode with an empty buffer and
    /// no staged name or completion cycle; the status message is kept.
    fn reset_input(&mut self)
        ensures
            final(self)@ == (AppModel {
                input_mode: InputMode::Normal,
                input_buffer: Seq::<char>::empty(),
                pending_dimension_name: None,
                completion: None,
                ..old(self)@
            }),
    {
        self.input_mode = InputMode::Normal;
        self.input_buffer = String::new();
        self.pending_dimension_name = None;
        self.completion = None;
    }

    /// Abandon the current input mode. Cancelling a search also clears
    /// the query and its results and restores the selection saved when
    /// the search began (clamped back into range if dimensions were
    /// removed meanwhile).
    pub fn cancel_input(&mut self)
        requires
            old(self).wf(),
        ensures
            final(self).wf(),
            old(self)@.input_mode != InputMode::Searching ==> final(self)@ == (AppModel {
                input_mode: InputMode::Normal,
                input_buffer: Seq::<char>::empty(),
                pending_dimension_name: None,
                completion: None,
                message: None,
                ..old(self)@
            }),
            old(self)@.input_mode == InputMode::Searching ==> final(self)@ == (AppModel {
                input_mode: InputMode::Normal,
                input_buffer: Seq::<char>::empty(),
                pending_dimension_name: None,
                completion: None,
                message: None,
                search_query: Seq::<char>::empty(),
                search_results: Seq::<SearchResultModel>::empty(),
                search_selected_index: 0,
                last_computed_query: Seq::<char>::empty(),
                selected_dimension: ({
                    let len = old(self)@.config.dimensions.len() as int;
                    if len == 0 {
                        0int
                    } else if old(self)@.pre_search_dimension < len {
                        old(self)@.pre_search_dimension
                    } else {
                        len - 1
                    }
                }),
                selected_tab: old(self)@.pre_search_tab,
                ..old(self)@
            }),
    {
        let was_searching = match self.input_mode {
            InputMode::Searching => true,
            _ => false,
        };
        self.reset_input();
        if was_searching {
            self.search_query = String::new();
            self.search_results = Vec::new();
            self.search_selected_index = 0;
            self.last_computed_query = String::new();
            let len = self.config.dimensions.len();
            self.selected_dimension = if len == 0 {
                0
            } else if self.pre_search_dimension < len {
                self.pre_search_dimension
            } else {
                len - 1
            };
            self.selected_tab = self.pre_search_tab;
            proof {
                assert(self.search_results.deep_view() =~= Seq::<SearchResultModel>::empty());
            }
        }
        self.message = None;
    }

    /// Types one character into the input buffer. While searching this
    /// also updates the live query; while typing a directory it clears
    /// any completion cycle.
    pub fn handle_input_char(&mut self, c: char)
        ensures
            final(self)@ == (AppModel {
                input_buffer: old(self)@.input_buffer.push(c),
                search_query: if old(self)@.input_mode == InputMode::Searching {
                    old(self)@.input_buffer.push(c)
                } else {
                    old(self)@.search_query
                },
                completion: if old(self)@.input_mode == InputMode::CreatingDimensionDirectory {
                    None
                } else {
                    old(self)@.completion
                },
                ..old(self)@
            }),
    {
        strutil::push_char(&mut self.input_buffer, c);
        match self.input_mode {
            InputMode::Searching => {
                self.search_query = self.input_buffer.clone();
            },
            InputMode::CreatingDimensionDirectory => {
                self.completion = None;
            },
            _ => {},
        }
    }

    /// Erases the last character of the input buffer, with the same
    /// query and completion upkeep as typing.
    pub fn handle_input_backspace(&mut self)
        ensures
            ({
                let nb = if old(self)@.input_buffer.len() > 0 {
                    old(self)@.input_buffer.take(old(self)@.input_buffer.len() - 1)
                } else {
                    old(self)@.input_buffer
                };
                final(self)@ == (AppModel {
                    input_buffer: nb,
                    search_query: if old(self)@.input_mode == InputMode::Searching {
                        nb
                    } else {
                        old(self)@.search_query
                    },
                    completion: if old(self)@.input_mode
                        == InputMode::CreatingDimensionDirectory {
                        None
                    } else {
                        old(self)@.completion
                    },
                    ..old(self)@
                })
            }),
    {
        let n = self.input_buffer.as_str().unicode_len();
        if n > 0 {
            let nb = strutil::substr_copy(self.input_buffer.as_str(), 0, n - 1);
            proof {
                assert(nb@ =~= self@.input_buffer.take(self@.input_buffer.len() - 1));
            }
            self.input_buffer = nb;
        }
        match self.input_mode {
            InputMode::Searching => {
                self.search_query = self.input_buffer.clone();
            },
            InputMode::CreatingDimensionDirectory => {
                self.completion = None;
            },
            _ => {},
        }
    }

    /// Select the next search result, cyclically.
    pub fn next_search_result(&mut self)
        requires
            old(self).wf(),
        ensures
            final(self).wf(),
            old(self)@.search_results.len() == 0 ==> final(self)@ == old(self)@,
            old(self)@.search_results.len() > 0 ==> final(self)@ == (AppModel {
                search_selected_index: (old(self)@.search_selected_index + 1)
                    % old(self)@.search_results.len() as int,
                ..old(self)@
            }),
    {
        let n = self.search_results.len();
        if n > 0 {
            self.search_selected_index = (self.search_selected_index + 1) % n;
        }
    }

    /// Select the previous search result, cyclically.
    pub fn previous_search_result(&mut self)
        requires
            old(self).wf(),
        ensures
            final(self).wf(),
            old(self)@.search_results.len() == 0 ==> final(self)@ == old(self)@,
            old(self)@.search_results.len() > 0 ==> final(self)@ == (AppModel {
                search_selected_index: if old(self)@.search_selected_index == 0 {
                    old(self)@.search_results.len() - 1
                } else {
                    old(self)@.search_selected_index - 1
                },
                ..old(self)@
            }),
    {
        let n = self.search_results.len();
        if n > 0 {
            if self.search_selected_index == 0 {
                self.search_selected_index = n - 1;
            } else {
                self.search_selected_index = self.search_selected_index - 1;
            }
        }
    }

    /// Adopts the highlighted search result as the selection — the
    /// result's dimension, and its tab reference in whichever index
    /// space it was computed in — and leaves search mode. The returned
    /// name, when there is one, is the dimension the caller should now
    /// switch to. Results that have gone stale against the configuration
    /// are ignored.
    pub fn select_search_result(&mut self) -> (r: Option<String>)
        requires
            old(self).wf(),
        ensures
            final(self).wf(),
            old(self)@.search_results.len() == 0 ==> final(self)@ == old(self)@ && r is None,
            old(self)@.search_results.len() > 0 ==> ({
                let res = old(self)@.search_results[old(self)@.search_selected_index];
                if 0 <= res.dimension_index < old(self)@.config.dimensions.len() {
                    &&& (r matches Some(nm) && nm@ == old(self)@.config.dimensions[
                        res.dimension_index].name)
                    &&& final(self)@ == (AppModel {
                        selected_dimension: res.dimension_index,
                        selected_tab: Some(res.tab_index),
                        input_mode: InputMode::Normal,
                        search_query: Seq::<char>::empty(),
                        search_results: Seq::<SearchResultModel>::empty(),
                        search_selected_index: 0,
                        last_computed_query: Seq::<char>::empty(),
                        ..old(self)@
                    })
                } else {
                    final(self)@ == old(self)@ && r is None
                }
            }),
    {
        if self.search_results.len() == 0 {
            return None;
        }
        let di = self.search_results[self.search_selected_index].dimension_index;
        if di >= self.config.dimensions.len() {
            return None;
        }
        let ti = self.search_results[self.search_selected_index].tab_index;
        self.selected_dimension = di;
        self.selected_tab = Some(ti);
        self.input_mode = InputMode::Normal;
        self.search_query = String::new();
        self.search_results = Vec::new();
        self.search_selected_index = 0;
        self.last_computed_query = String::new();
        proof {
            assert(self.search_results.deep_view() =~= Seq::<SearchResultModel>::empty());
        }
        Some(self.config.dimensions[di].name.clone())
    }

    /// Whether the query changed since results were last computed: only
    /// then need the caller gather live snapshots and recompute.
    pub fn search_needs_recompute(&self) -> (b: bool)
        ensures
            b == (self@.search_query != self@.last_computed_query),
    {
        !(self.search_query == self.last_computed_query)
    }

    /// Recomputes the ranked results for the current query, memoized on
    /// the last computed query. `live[i]` holds dimension `i`'s live
    /// windows when its session exists. The results are exactly those of
    /// `all_results` (as a multiset), ordered by non-increasing score;
    /// per dimension the count of results is kept by the ordering.
    pub fn compute_search_results(&mut self, live: &Vec<Option<Vec<LiveWindow>>>)
        requires
            old(self).wf(),
            live.deep_view().len() == old(self)@.config.dimensions.len(),
        ensures
            final(self).wf(),
            old(self)@.search_query == old(self)@.last_computed_query ==> final(self)@ == old(
                self,
            )@,
            old(self)@.search_query != old(self)@.last_computed_query
                && old(self)@.search_query.len() == 0 ==> final(self)@ == (AppModel {
                search_results: Seq::<SearchResultModel>::empty(),
                search_selected_index: 0,
                last_computed_query: old(self)@.search_query,
                ..old(self)@
            }),
            old(self)@.search_query != old(self)@.last_computed_query
                && old(self)@.search_query.len() > 0 ==> ({
                let expected = all_results(
                    old(self)@.config.dimensions,
                    live.deep_view(),
                    old(self)@.search_query,
                );
                &&& final(self)@ == (AppModel {
                    search_results: final(self)@.search_results,
                    search_selected_index: 0,
                    last_computed_query: old(self)@.search_query,
                    ..old(self)@
                })
                &&& sorted_by_score_desc(final(self)@.search_results)
                &&& final(self)@.search_results.to_multiset() == expected.to_multiset()
                &&& forall|d: int|
                    count_for_dimension(final(self)@.search_results, d) == count_for_dimension(
                        expected,
                        d,
                    )
            }),
    {
        if self.search_query == self.last_computed_query {
            return ;
        }
        self.last_computed_query = self.search_query.clone();
        self.search_results = Vec::new();
        self.search_selected_index = 0;
        proof {
            assert(self.search_results.deep_view() =~= Seq::<SearchResultModel>::empty());
        }
        if self.search_query.as_str().unicode_len() == 0 {
            return ;
        }
        let ghost dims = self@.config.dimensions;
        let ghost livev = live.deep_view();
        let ghost q = self@.search_query;
        let ghost mid = self@;
        let mut results: Vec<SearchResult> = Vec::new();
        proof {
            assert(results.deep_view() =~= Seq::<SearchResultModel>::empty());
            assert(results.deep_view() =~= crate::search::results_up_to(dims, livev, q, 0));
        }
        let mut i: usize = 0;
        while i < self.config.dimensions.len()
            invariant
                self@ == mid,
                self.wf(),
                dims == self@.config.dimensions,
                q == self@.search_query,
                livev == live.deep_view(),
                livev.len() == dims.len(),
                i <= dims.len(),
                results.deep_view() == crate::search::results_up_to(dims, livev, q, i as int),
            decreases dims.len() - i,
        {
            let mut tab_refs: Vec<LiveWindow> = Vec::new();
            match &live[i] {
                Some(ws) => {
                    let mut j: usize = 0;
                    while j < ws.len()
                        invariant
                            j <= ws.deep_view().len(),
                            tab_refs.deep_view() == ws.deep_view().take(j as int),
                        decreases ws.len() - j,
                    {
                        let ghost pre = tab_refs.deep_view();
                        let w = LiveWindow::new(ws[j].index, ws[j].name.clone());
                        proof {
                            assert(w@ == ws.deep_view()[j as int]);
                        }
                        tab_refs.push(w);
                        proof {
                            assert(tab_refs.deep_view() =~= pre.push(w@));
                            assert(tab_refs.deep_view() =~= ws.deep_view().take(j + 1));
                        }
                        j = j + 1;
                    }
                    proof {
                        assert(ws.deep_view().take(ws.deep_view().len() as int) =~= ws.deep_view());
                        assert(tab_refs.deep_view() =~= effective_tab_refs(
                            livev[i as int],
                            dims[i as int].tabs,
                        ));
                    }
                },
                None => {
                    let tabs_len = self.config.dimensions[i].tabs.len();
                    let mut j: usize = 0;
                    while j < tabs_len
                        invariant
                            self@ == mid,
                            dims == self@.config.dimensions,
                            i < dims.len(),
                            tabs_len == dims[i as int].tabs.len(),
                            j <= tabs_len,
                            tab_refs.deep_view() == Seq::new(
                                j as nat,
                                |k: int| LiveWindowModel { index: k, name: dims[i as int].tabs[k].name },
                            ),
                        decreases tabs_len - j,
                    {
                        let ghost pre = tab_refs.deep_view();
                        let w = LiveWindow::new(j, self.config.dimensions[i].tabs[j].name.clone());
                        proof {
                            assert(dims[i as int].tabs[j as int]
                                == self.config.dimensions@[i as int].tabs@[j as int]@);
                            assert(w@ == (LiveWindowModel {
                                index: j as int,
                                name: dims[i as int].tabs[j as int].name,
                            }));
                        }
                        tab_refs.push(w);
                        proof {
                            assert(tab_refs.deep_view() =~= pre.push(w@));
                            assert(tab_refs.deep_view() =~= Seq::new(
                                (j + 1) as nat,
                                |k: int| LiveWindowModel { index: k, name: dims[i as int].tabs[k].name },
                            ));
                        }
                        j = j + 1;
                    }
                    proof {
                        assert(tab_refs.deep_view() =~= effective_tab_refs(
                            livev[i as int],
                            dims[i as int].tabs,
                        ));
                    }
                },
            }
            search_dimension(
                i,
                self.config.dimensions[i].name.as_str(),
                &tab_refs,
                self.search_query.as_str(),
                &mut results,
            );
            i = i + 1;
        }
        sort_results_desc(&mut results);
        let ghost unsorted = all_results(dims, livev, q);
        proof {
            assert forall|d: int|
                count_for_dimension(results.deep_view(), d) == count_for_dimension(
                    unsorted,
                    d,
                ) by {
                lemma_filter_len_multiset_invariant(results.deep_view(), unsorted, dim_pred(d));
            }
        }
        self.search_results = results;
        self.search_selected_index = 0;
    }
}

/// Whether a completion cycle is active: an anchored non-empty base and
/// at least one candidate.
pub open spec fn completion_active(m: AppModel) -> bool {
    match m.completion {
        Some(c) => c.candidates.len() > 0 && c.base.len() > 0,
        None => false,
    }
}

/// The state after leaving input entry: normal mode, an empty buffer,
/// no staged name, no completion cycle; everything else as it was.
pub open spec fn reset_model(m: AppModel) -> AppModel {
    AppModel {
        input_mode: InputMode::Normal,
        input_buffer: Seq::<char>::empty(),
        pending_dimension_name: None,
        completion: None,
        ..m
    }
}

impl App {
    /// Whether a completion cycle is active.
    pub fn completion_cycle_active(&self) -> (b: bool)
        ensures
            b == completion_active(self@),
    {
        match &self.completion {
            Some(c) => c.candidates.len() > 0 && c.base.as_str().unicode_len() > 0,
            None => false,
        }
    }

    /// Advances (or retreats) the active completion cycle and replaces
    /// the input buffer with the candidate now shown.
    pub fn completion_cycle_step(&mut self, forward: bool)
        requires
            old(self).wf(),
            completion_active(old(self)@),
        ensures
            final(self).wf(),
            ({
                let c = old(self)@.completion->Some_0;
                let n = c.candidates.len() as int;
                let shown = if forward {
                    step_forward(c.cursor, n)
                } else {
                    step_backward(c.cursor, n)
                };
                final(self)@ == (AppModel {
                    input_buffer: c.candidates[shown],
                    completion: Some(
                        CompletionModel {
                            base: c.base,
                            candidates: c.candidates,
                            cursor: Some(shown),
                        },
                    ),
                    ..old(self)@
                })
            }),
    {
        let nb: String;
        match &mut self.completion {
            Some(st) => {
                let shown = st.step(forward);
                nb = st.candidates[shown].clone();
            },
            None => {
                nb = String::new();
            },
        }
        self.input_buffer = nb;
    }

    /// Applies freshly computed candidates to the buffer: none is a
    /// no-op; a single candidate replaces the buffer, with exactly one
    /// trailing separator appended, and ends the cycle; several with a
    /// common prefix longer than the buffer advance the buffer to that
    /// prefix and anchor a cycle there; several without one anchor a
    /// cycle at the buffer as it was and show the first candidate.
    pub fn completion_apply(&mut self, candidates: Vec<String>, common: String)
        requires
            old(self).wf(),
        ensures
            final(self).wf(),
            candidates.deep_view().len() == 0 ==> final(self)@ == old(self)@,
            candidates.deep_view().len() == 1 ==> final(self)@ == (AppModel {
                input_buffer: candidates.deep_view()[0].push('/'),
                completion: None,
                ..old(self)@
            }),
            candidates.deep_view().len() > 1 && common@.len() > old(self)@.input_buffer.len()
                ==> final(self)@ == (AppModel {
                input_buffer: common@,
                completion: Some(
                    CompletionModel {
                        base: common@,
                        candidates: candidates.deep_view(),
                        cursor: None,
                    },
                ),
                ..old(self)@
            }),
            candidates.deep_view().len() > 1 && common@.len() <= old(self)@.input_buffer.len()
                ==> final(self)@ == (AppModel {
                input_buffer: candidates.deep_view()[0],
                completion: Some(
                    CompletionModel {
                        base: old(self)@.input_buffer,
                        candidates: candidates.deep_view(),
                        cursor: Some(0),
                    },
                ),
                ..old(self)@
            }),
    {
        let n = candidates.len();
        if n == 0 {
            return ;
        }
        if n == 1 {
            let mut b: String = candidates[0].clone();
            strutil::push_char(&mut b, '/');
            self.input_buffer = b;
            self.completion = None;
            return ;
        }
        let clen = common.as_str().unicode_len();
        let blen = self.input_buffer.as_str().unicode_len();
        if clen > blen {
            self.input_buffer = common.clone();
            self.completion = Some(CompletionState { base: common, candidates, cursor: None });
        } else {
            let base = self.input_buffer.clone();
            self.input_buffer = candidates[0].clone();
            self.completion = Some(CompletionState { base, candidates, cursor: Some(0) });
        }
    }
}

/// Everything a submit decision may need to know from outside: the
/// process's current directory, the expansion of the typed directory
/// and what the filesystem says of it, whether the relevant dimension's
/// session exists, and its live windows when deleting a tab.
pub struct SubmitContext {
    pub cwd: String,
    pub expanded_dir: String,
    pub dir_exists: bool,
    pub dir_is_dir: bool,
    pub session_exists: bool,
    pub live_windows: Option<Vec<LiveWindow>>,
}

impl App {
    /// Interprets the submit key for the current mode: staging the new
    /// dimension's name and then accepting or refusing its directory,
    /// parsing `name` or `name:command` into a new tab, confirming a
    /// dimension or tab deletion, or nothing while searching (selection
    /// is a separate action there). Except on a refused directory —
    /// which keeps the mode and buffer for correction — the machine
    /// returns to normal mode; a success or error message is kept.
    pub fn submit_input(&mut self, ctx: &SubmitContext) -> (r: (Vec<BackendCommand>, bool))
        requires
            old(self).wf(),
        ensures
            final(self).wf(),
            old(self)@.input_mode == InputMode::Normal ==> final(self)@ == reset_model(old(self)@)
                && r.0.deep_view() == Seq::<CommandModel>::empty() && !r.1,
            old(self)@.input_mode == InputMode::Searching ==> final(self)@ == old(self)@
                && r.0.deep_view() == Seq::<CommandModel>::empty() && !r.1,
            old(self)@.input_mode == InputMode::CreatingDimensionName ==> ({
                let nm = strutil::trim_spaces(old(self)@.input_buffer);
                &&& r.0.deep_view() == Seq::<CommandModel>::empty()
                &&& !r.1
                &&& (nm.len() == 0 ==> final(self)@ == reset_model(old(self)@))
                &&& (nm.len() > 0 ==> final(self)@ == (AppModel {
                    input_mode: InputMode::CreatingDimensionDirectory,
                    pending_dimension_name: Some(nm),
                    input_buffer: ctx.cwd@,
                    completion: None,
                    ..old(self)@
                }))
            }),
            old(self)@.input_mode == InputMode::CreatingDimensionDirectory ==> ({
                let nm = old(self)@.pending_dimension_name->Some_0;
                let dir = strutil::trim_spaces(old(self)@.input_buffer);
                let accepted = dir.len() == 0 || (ctx.dir_exists && ctx.dir_is_dir);
                let base = if dir.len() == 0 {
                    Option::<Seq<char>>::None
                } else {
                    Some(ctx.expanded_dir@)
                };
                &&& r.0.deep_view() == Seq::<CommandModel>::empty()
                &&& !r.1
                &&& (dir.len() > 0 && !ctx.dir_exists ==> final(self)@ == (AppModel {
                    message: Some("Directory does not exist: "@ + old(self)@.input_buffer),
                    ..old(self)@
                }))
                &&& (dir.len() > 0 && ctx.dir_exists && !ctx.dir_is_dir ==> final(self)@
                    == (AppModel {
                    message: Some("Path is not a directory: "@ + old(self)@.input_buffer),
                    ..old(self)@
                }))
                &&& (accepted && has_dim(old(self)@.config, nm) ==> final(self)@ == (AppModel {
                    message: Some("Dimension '"@ + nm + "' already exists"@),
                    ..reset_model(old(self)@)
                }))
                &&& (accepted && !has_dim(old(self)@.config, nm) ==> final(self)@ == (AppModel {
                    config: ConfigModel {
                        dimensions: old(self)@.config.dimensions.push(
                            DimensionModel {
                                name: nm,
                                tabs: Seq::<TabModel>::empty(),
                                base_dir: base,
                                collapsed: false,
                            },
                        ),
                        ..old(self)@.config
                    },
                    message: Some("Created dimension: "@ + nm),
                    ..reset_model(old(self)@)
                }))
            }),
            old(self)@.input_mode == InputMode::AddingTab ==> ({
                let t = strutil::trim_spaces(old(self)@.input_buffer);
                let nm = match first_index_of(t, ':') {
                    Some(ci) => t.subrange(0, ci),
                    None => t,
                };
                let cmd = match first_index_of(t, ':') {
                    Some(ci) => Some(t.subrange(ci + 1, t.len() as int)),
                    None => Option::<Seq<char>>::None,
                };
                &&& !r.1
                &&& (t.len() == 0 ==> final(self)@ == reset_model(old(self)@)
                    && r.0.deep_view() == Seq::<CommandModel>::empty())
                &&& (t.len() > 0 && old(self)@.config.dimensions.len() == 0 ==> final(self)@
                    == reset_model(old(self)@) && r.0.deep_view() == Seq::<CommandModel>::empty())
                &&& (t.len() > 0 && old(self)@.config.dimensions.len() > 0 ==> ({
                    let d = old(self)@.config.dimensions[old(self)@.selected_dimension];
                    let wd = match d.base_dir {
                        Some(b) => b,
                        None => ctx.cwd@,
                    };
                    &&& final(self)@ == (AppModel {
                        config: ConfigModel {
                            dimensions: old(self)@.config.dimensions.update(
                                old(self)@.selected_dimension,
                                DimensionModel {
                                    tabs: d.tabs.push(
                                        TabModel { name: nm, command: cmd, working_dir: Some(wd) },
                                    ),
                                    ..d
                                },
                            ),
                            ..old(self)@.config
                        },
                        message: Some("Added tab: "@ + nm),
                        ..reset_model(old(self)@)
                    })
                    &&& r.0.deep_view() == if ctx.session_exists {
                        seq![
                            CommandModel::NewWindow {
                                session: d.name,
                                name: nm,
                                command: cmd,
                                dir: Some(wd),
                            },
                        ]
                    } else {
                        Seq::<CommandModel>::empty()
                    }
                }))
            }),
            old(self)@.input_mode == InputMode::DeletingDimension ==> ({
                &&& !r.1
                &&& (old(self)@.config.dimensions.len() == 0 ==> final(self)@ == reset_model(
                    old(self)@,
                ) && r.0.deep_view() == Seq::<CommandModel>::empty())
                &&& (old(self)@.config.dimensions.len() > 0 ==> ({
                    let name = old(self)@.config.dimensions[old(self)@.selected_dimension].name;
                    &&& removed_first(
                        old(self)@.config.dimensions,
                        final(self)@.config.dimensions,
                        name,
                    )
                    &&& final(self)@ == (AppModel {
                        config: ConfigModel {
                            dimensions: final(self)@.config.dimensions,
                            ..old(self)@.config
                        },
                        selected_dimension: if old(self)@.selected_dimension
                            >= final(self)@.config.dimensions.len()
                            && old(self)@.selected_dimension > 0 {
                            old(self)@.selected_dimension - 1
                        } else {
                            old(self)@.selected_dimension
                        },
                        selected_tab: None,
                        message: Some("Deleted dimension: "@ + name),
                        ..reset_model(old(self)@)
                    })
                    &&& r.0.deep_view() == if ctx.session_exists {
                        seq![CommandModel::KillSession { name }]
                    } else {
                        Seq::<CommandModel>::empty()
                    }
                }))
            }),
            old(self)@.input_mode == InputMode::DeletingTab ==> ({
                let m0 = old(self)@;
                if m0.selected_tab is None || m0.config.dimensions.len() == 0 {
                    final(self)@ == reset_model(m0) && r.0.deep_view() == Seq::<
                        CommandModel,
                    >::empty() && !r.1
                } else {
                    let idx = m0.selected_tab->Some_0;
                    let d = m0.config.dimensions[m0.selected_dimension];
                    match ctx.live_windows.deep_view() {
                        Some(ws) => match find_window_pos(ws, idx) {
                            None => final(self)@ == reset_model(m0) && r.0.deep_view() == Seq::<
                                CommandModel,
                            >::empty() && !r.1,
                            Some(p) => {
                                let wname = ws[p].name;
                                let survivors = ws.remove(p);
                                let requery = survivors.len() > 0 && m0.current_session == Some(
                                    d.name,
                                ) && m0.current_window == Some(idx);
                                &&& r.0.deep_view() == seq![
                                    CommandModel::KillWindow { session: d.name, index: idx },
                                ]
                                &&& r.1 == requery
                                &&& final(self)@ == (AppModel {
                                    config: ConfigModel {
                                        dimensions: m0.config.dimensions.update(
                                            m0.selected_dimension,
                                            DimensionModel {
                                                tabs: remove_template(d.tabs, wname),
                                                ..d
                                            },
                                        ),
                                        ..m0.config
                                    },
                                    selected_tab: if survivors.len() == 0 {
                                        None
                                    } else if requery {
                                        m0.selected_tab
                                    } else {
                                        Some(survivors[0].index)
                                    },
                                    message: Some("Removed tab: "@ + wname),
                                    ..reset_model(m0)
                                })
                            },
                        },
                        None => {
                            if 0 <= idx < d.tabs.len() {
                                let newlen = d.tabs.len() - 1;
                                &&& r.0.deep_view() == Seq::<CommandModel>::empty()
                                &&& !r.1
                                &&& final(self)@ == (AppModel {
                                    config: ConfigModel {
                                        dimensions: m0.config.dimensions.update(
                                            m0.selected_dimension,
                                            DimensionModel { tabs: d.tabs.remove(idx), ..d },
                                        ),
                                        ..m0.config
                                    },
                                    selected_tab: if newlen == 0 {
                                        None
                                    } else if idx >= newlen {
                                        Some(newlen - 1)
                                    } else {
                                        Some(idx)
                                    },
                                    message: Some("Removed tab: "@ + d.tabs[idx].name),
                                    ..reset_model(m0)
                                })
                            } else {
                                final(self)@ == reset_model(m0) && r.0.deep_view() == Seq::<
                                    CommandModel,
                                >::empty() && !r.1
                            }
                        },
                    }
                }
            }),
    {
        let empty_cmds: Vec<BackendCommand> = Vec::new();
        proof {
            assert(empty_cmds.deep_view() =~= Seq::<CommandModel>::empty());
        }
        match self.input_mode {
            InputMode::Normal => {
                self.reset_input();
                (empty_cmds, false)
            },
            InputMode::Searching => (empty_cmds, false),
            InputMode::CreatingDimensionName => {
                let nm = strutil::trim(self.input_buffer.as_str());
                if nm.as_str().unicode_len() == 0 {
                    self.reset_input();
                } else {
                    self.pending_dimension_name = Some(nm);
                    self.input_mode = InputMode::CreatingDimensionDirectory;
                    self.input_buffer = ctx.cwd.clone();
                    self.completion = None;
                }
                (empty_cmds, false)
            },
            InputMode::CreatingDimensionDirectory => {
                let nm: String = match &self.pending_dimension_name {
                    Some(p) => p.clone(),
                    None => {
                        self.reset_input();
                        return (empty_cmds, false);
                    },
                };
                let trimmed = strutil::trim(self.input_buffer.as_str());
                if trimmed.as_str().unicode_len() == 0 {
                    match self.create_dimension(nm, None) {
                        Ok(_) => {},
                        Err(m) => {
                            self.set_message(m);
                        },
                    }
                    self.reset_input();
                } else if !ctx.dir_exists || !ctx.dir_is_dir {
                    match PathCompleter::validate_directory(
                        self.input_buffer.as_str(),
                        ctx.expanded_dir.clone(),
                        ctx.dir_exists,
                        ctx.dir_is_dir,
                    ) {
                        Err(m) => {
                            self.set_message(m);
                        },
                        Ok(_) => {},
                    }
                } else {
                    match self.create_dimension(nm, Some(ctx.expanded_dir.clone())) {
                        Ok(_) => {},
                        Err(m) => {
                            self.set_message(m);
                        },
                    }
                    self.reset_input();
                }
                (empty_cmds, false)
            },
            InputMode::AddingTab => {
                let t = strutil::trim(self.input_buffer.as_str());
                let tlen = t.as_str().unicode_len();
                if tlen == 0 {
                    self.reset_input();
                    return (empty_cmds, false);
                }
                let name: String;
                let command: Option<String>;
                match strutil::find_char(t.as_str(), ':') {
                    Some(ci) => {
                        proof {
                            lemma_first_index_some(t@, ':', ci as int);
                        }
                        name = strutil::substr_copy(t.as_str(), 0, ci);
                        command = Some(strutil::substr_copy(t.as_str(), ci + 1, tlen));
                    },
                    None => {
                        proof {
                            lemma_first_index_none(t@, ':');
                        }
                        name = t;
                        command = None;
                    },
                }
                let cmds = self.add_tab_to_current_dimension(
                    name,
                    command,
                    ctx.cwd.as_str(),
                    ctx.session_exists,
                );
                self.reset_input();
                (cmds, false)
            },
            InputMode::DeletingDimension => {
                if self.config.dimensions.len() == 0 {
                    self.reset_input();
                    return (empty_cmds, false);
                }
                let name: String = self.config.dimensions[self.selected_dimension].name.clone();
                proof {
                    assert(self@.config.dimensions[self@.selected_dimension].name == name@);
                }
                let cmds = match self.delete_dimension(name.as_str(), ctx.session_exists) {
                    Ok(c) => c,
                    Err(_) => {
                        let c: Vec<BackendCommand> = Vec::new();
                        c
                    },
                };
                self.reset_input();
                (cmds, false)
            },
            InputMode::DeletingTab => {
                let (cmds, requery) = self.remove_tab_from_current_dimension(
                    ctx.live_windows.as_ref(),
                );
                self.reset_input();
                (cmds, requery)
            },
        }
    }
}

/// A found window position is inside the list.
proof fn lemma_find_window_pos_bound(ws: Seq<LiveWindowModel>, idx: int)
    ensures
        find_window_pos(ws, idx) matches Some(p) ==> 0 <= p < ws.len(),
    decreases ws.len(),
{
    if ws.len() > 0 && ws[0].index != idx {
        lemma_find_window_pos_bound(ws.drop_first(), idx);
    }
}

} // verus!
