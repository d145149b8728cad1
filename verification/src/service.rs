//! The application state machine: it owns the host registry, the search
//! filter, the form draft, the theme selection and the pending action, and
//! mediates every mutation. Add, edit and delete commits validate first,
//! then persist through the configuration store, and roll the in-memory
//! registry back when persisting fails.

use crate::app_state::{Action, FormField, Mode};
use crate::config::{hosts_view, spec_parse};
use crate::host::{empty_host_view, host_valid, HostView, SshHost};
use crate::repository::{SshRepository, ThemeRepository};
use crate::text::{is_substring_ci, lower_seq};
use crate::theme::{Theme, ThemePreference};
use vstd::prelude::*;
use vstd::string::StrSliceExecFns;
use vstd::string::StringExecFns;

verus! {

/// An entry matches a query when the query occurs case-insensitively in
/// its alias, hostname or user.
pub open spec fn host_matches(h: HostView, q: Seq<char>) -> bool {
    is_substring_ci(q, h.alias) || is_substring_ci(q, h.hostname) || is_substring_ci(q, h.user)
}

/// The filtered view is exactly the positions of the matching entries, in
/// increasing order: every listed index is in bounds and matches, the
/// indices are strictly increasing, and no matching entry is left out.
pub open spec fn filter_ok(vis: Seq<usize>, hosts: Seq<HostView>, q: Seq<char>) -> bool {
    &&& (forall|j: int|
        0 <= j < vis.len() ==> #[trigger] vis[j] < hosts.len() && host_matches(
            hosts[vis[j] as int],
            q,
        ))
    &&& (forall|j1: int, j2: int| 0 <= j1 < j2 < vis.len() ==> vis[j1] < vis[j2])
    &&& (forall|i: int|
        0 <= i < hosts.len() && host_matches(#[trigger] hosts[i], q) ==> vis.contains(i as usize))
}

/// No two entries share a case-insensitively equal alias.
pub open spec fn aliases_unique(hs: Seq<HostView>) -> bool {
    forall|i: int, j: int|
        0 <= i < j < hs.len() ==> lower_seq(#[trigger] hs[i].alias) != lower_seq(
            #[trigger] hs[j].alias,
        )
}

/// Some entry other than position `except` (when given) already uses this
/// alias, case-insensitively.
pub open spec fn alias_taken(hs: Seq<HostView>, alias: Seq<char>, except: Option<int>) -> bool {
    exists|i: int|
        0 <= i < hs.len() && except != Some(i) && lower_seq(#[trigger] hs[i].alias) == lower_seq(
            alias,
        )
}

/// The notification flags an error.
pub open spec fn note_is_error(n: Option<(String, bool)>) -> bool {
    match n {
        Some(p) => p.1,
        None => false,
    }
}

/// The value a form field shows: the port as its decimal digits, every
/// other field as its text.
pub open spec fn form_read_spec(d: HostView, f: FormField) -> Seq<char> {
    match f {
        FormField::Alias => d.alias,
        FormField::HostName => d.hostname,
        FormField::Port => crate::text::dec_digits(d.port as int),
        FormField::User => d.user,
        FormField::IdentityFile => d.identity_file,
    }
}

/// A form field overwritten with new text: the port is re-parsed with the
/// usual fallback to 22, every other field takes the text as it stands.
pub open spec fn form_write_spec(d: HostView, f: FormField, v: Seq<char>) -> HostView {
    match f {
        FormField::Alias => HostView { alias: v, ..d },
        FormField::HostName => HostView { hostname: v, ..d },
        FormField::Port => HostView { port: crate::text::parse_port_spec(v), ..d },
        FormField::User => HostView { user: v, ..d },
        FormField::IdentityFile => HostView { identity_file: v, ..d },
    }
}

/// The application state. The registry (`preamble`, `hosts`) is the single
/// source of truth the interface observes; `visible_indices` is the search
/// filter's view into it; `mode` carries the workflow the operator is in.
pub struct AppService {
    pub preamble: String,
    pub hosts: Vec<SshHost>,
    pub ssh_config_path: String,
    pub mode: Mode,
    pub cursor: usize,
    pub form_draft: SshHost,
    pub form_field: FormField,
    pub theme: Theme,
    pub theme_preference: ThemePreference,
    pub available_themes: Vec<Theme>,
    pub theme_cursor: usize,
    pub search_query: String,
    pub visible_indices: Vec<usize>,
    pub show_command: bool,
    pub notification: Option<(String, bool)>,
    pub pending_action: Action,
}

impl AppService {
    /// The abstract host registry.
    pub open spec fn hosts_v(&self) -> Seq<HostView> {
        hosts_view(self.hosts@)
    }

    /// The state invariant: the filtered view is consistent with the
    /// registry and the query, the cursor is clamped to it, the theme
    /// cursor is in catalog bounds, and any mode payload indexes a live
    /// entry.
    pub open spec fn wf(&self) -> bool {
        &&& filter_ok(self.visible_indices@, self.hosts_v(), self.search_query@)
        &&& (self.visible_indices@.len() == 0 ==> self.cursor == 0)
        &&& (self.visible_indices@.len() > 0 ==> self.cursor < self.visible_indices@.len())
        &&& self.available_themes@.len() > 0
        &&& self.theme_cursor < self.available_themes@.len()
        &&& match self.mode {
            Mode::EditHost(i) => i < self.hosts@.len(),
            Mode::ConfirmDelete(i) => i < self.hosts@.len(),
            _ => true,
        }
    }

    /// Build the state from both stores: the registry from a fresh parse,
    /// the filter unfiltered, the theme from the saved preference with its
    /// index clamped to the catalog.
    pub fn initialize<R: SshRepository, T: ThemeRepository>(ssh_repo: &R, theme_repo: &T) -> (r:
        Self)
        ensures
            r.wf(),
            ({
                let text = match ssh_repo.stored() {
                    Some(t) => t,
                    None => Seq::<char>::empty(),
                };
                r.preamble@ == spec_parse(text).0 && r.hosts_v() == spec_parse(text).1
            }),
            r.ssh_config_path@ == ssh_repo.path_view(),
            r.mode == Mode::Normal,
            r.cursor == 0,
            r.form_draft@ == empty_host_view(),
            r.form_field == FormField::Alias,
            r.search_query@.len() == 0,
            r.visible_indices@.len() == r.hosts@.len(),
            r.show_command == false,
            r.notification is None,
            r.pending_action is Continue,
            r.theme_preference == match theme_repo.stored_preference() {
                Some(p) => p,
                None => crate::theme::default_preference(),
            },
            r.theme.transparent == r.theme_preference.transparent,
    {
        let loaded = ssh_repo.load_all();
        let preamble = loaded.0;
        let hosts = loaded.1;
        let ssh_config_path = ssh_repo.config_path();

        let preference = theme_repo.load_preference();
        let available_themes = theme_repo.catalog();

        let theme_index = if preference.theme_index < available_themes.len() {
            preference.theme_index
        } else {
            available_themes.len() - 1
        };
        let mut theme = available_themes[theme_index].clone();
        theme.transparent = preference.transparent;

        let mut visible_indices: Vec<usize> = Vec::new();
        let mut i: usize = 0;
        while i < hosts.len()
            invariant
                0 <= i <= hosts@.len(),
                visible_indices@.len() == i,
                forall|j: int| 0 <= j < i ==> #[trigger] visible_indices@[j] == j,
            decreases hosts@.len() - i,
        {
            visible_indices.push(i);
            i = i + 1;
        }

        let r = AppService {
            preamble,
            hosts,
            ssh_config_path,
            mode: Mode::Normal,
            cursor: 0,
            form_draft: SshHost::empty(),
            form_field: FormField::Alias,
            theme,
            theme_preference: preference,
            available_themes,
            theme_cursor: theme_index,
            search_query: String::new(),
            visible_indices,
            show_command: false,
            notification: None,
            pending_action: Action::Continue,
        };
        proof {
            lemma_empty_query_matches_all(r.hosts_v());
            assert(filter_ok(r.visible_indices@, r.hosts_v(), r.search_query@)) by {
                assert(forall|i2: int|
                    0 <= i2 < r.hosts_v().len() && host_matches(#[trigger] r.hosts_v()[i2], r.search_query@)
                        ==> r.visible_indices@[i2] == i2 as usize && r.visible_indices@.contains(
                        i2 as usize,
                    ));
            }
        }
        r
    }

    /// The path of the backing configuration file, for display.
    pub fn config_path_display(&self) -> (r: String)
        ensures
            r@ == self.ssh_config_path@,
    {
        self.ssh_config_path.clone()
    }

    /// How many entries the registry holds.
    pub fn host_count(&self) -> (r: usize)
        ensures
            r == self.hosts@.len(),
    {
        self.hosts.len()
    }

    /// The filtered entries with their registry positions, in filter
    /// order.
    pub fn visible_hosts(&self) -> (r: Vec<(usize, SshHost)>)
        requires
            self.wf(),
        ensures
            r@.len() == self.visible_indices@.len(),
            forall|j: int|
                0 <= j < r@.len() ==> #[trigger] r@[j].0 == self.visible_indices@[j] && r@[j].1@
                    == self.hosts_v()[self.visible_indices@[j] as int],
    {
        let mut r: Vec<(usize, SshHost)> = Vec::new();
        let mut j: usize = 0;
        while j < self.visible_indices.len()
            invariant
                self.wf(),
                0 <= j <= self.visible_indices@.len(),
                r@.len() == j,
                forall|k: int|
                    0 <= k < j ==> #[trigger] r@[k].0 == self.visible_indices@[k] && r@[k].1@
                        == self.hosts_v()[self.visible_indices@[k] as int],
            decreases self.visible_indices@.len() - j,
        {
            let idx = self.visible_indices[j];
            r.push((idx, self.hosts[idx].clone()));
            j = j + 1;
        }
        r
    }

    /// The registry position the cursor selects, when the filter is not
    /// empty.
    fn selected_real_index(&self) -> (r: Option<usize>)
        requires
            self.wf(),
        ensures
            match r {
                Some(i) => self.visible_indices@.len() > 0 && i
                    == self.visible_indices@[self.cursor as int] && i < self.hosts@.len(),
                None => self.visible_indices@.len() == 0,
            },
    {
        if self.visible_indices.len() == 0 {
            None
        } else {
            Some(self.visible_indices[self.cursor])
        }
    }

    /// The selected entry, when there is one.
    pub fn selected_host(&self) -> (r: Option<&SshHost>)
        requires
            self.wf(),
        ensures
            match r {
                Some(h) => {
                    let i = self.visible_indices@[self.cursor as int] as int;
                    self.visible_indices@.len() > 0 && h@ == self.hosts_v()[i]
                },
                None => self.visible_indices@.len() == 0,
            },
    {
        match self.selected_real_index() {
            Some(i) => Some(&self.hosts[i]),
            None => None,
        }
    }

    /// The entry at a registry position, when it exists.
    pub fn host_at(&self, index: usize) -> (r: Option<&SshHost>)
        ensures
            match r {
                Some(h) => index < self.hosts@.len() && h@ == self.hosts_v()[index as int],
                None => index >= self.hosts@.len(),
            },
    {
        if index < self.hosts.len() {
            Some(&self.hosts[index])
        } else {
            None
        }
    }

    /// Move the selection one entry up, stopping at the top.
    pub fn move_cursor_up(&mut self)
        requires
            old(self).wf(),
        ensures
            final(self).wf(),
            *final(self) == (AppService { cursor: final(self).cursor, ..*old(self) }),
            final(self).cursor == if old(self).cursor > 0 {
                (old(self).cursor - 1) as usize
            } else {
                0
            },
    {
        if self.cursor > 0 {
            self.cursor = self.cursor - 1;
        }
    }

    /// Move the selection one entry down, stopping at the bottom.
    pub fn move_cursor_down(&mut self)
        requires
            old(self).wf(),
        ensures
            final(self).wf(),
            *final(self) == (AppService { cursor: final(self).cursor, ..*old(self) }),
            final(self).cursor == if old(self).cursor + 1 < old(self).visible_indices@.len() {
                (old(self).cursor + 1) as usize
            } else {
                old(self).cursor
            },
    {
        let count = self.visible_indices.len();
        if count > 0 && self.cursor < count - 1 {
            self.cursor = self.cursor + 1;
        }
    }

    /// Select the first filtered entry.
    pub fn jump_to_top(&mut self)
        requires
            old(self).wf(),
        ensures
            final(self).wf(),
            *final(self) == (AppService { cursor: 0, ..*old(self) }),
    {
        self.cursor = 0;
    }

    /// Select the last filtered entry.
    pub fn jump_to_bottom(&mut self)
        requires
            old(self).wf(),
        ensures
            final(self).wf(),
            *final(self) == (AppService { cursor: final(self).cursor, ..*old(self) }),
            final(self).cursor == if old(self).visible_indices@.len() > 0 {
                (old(self).visible_indices@.len() - 1) as usize
            } else {
                old(self).cursor
            },
    {
        let count = self.visible_indices.len();
        if count > 0 {
            self.cursor = count - 1;
        }
    }

    /// Does any entry (other than `except`, when given) already use this
    /// alias, case-insensitively?
    fn alias_conflicts(&self, alias: &str, except: Option<usize>) -> (r: bool)
        ensures
            r == alias_taken(
                self.hosts_v(),
                alias@,
                match except {
                    Some(e) => Some(e as int),
                    None => None,
                },
            ),
    {
        let ghost ex = match except {
            Some(e) => Some(e as int),
            None => None,
        };
        let mut i: usize = 0;
        while i < self.hosts.len()
            invariant
                0 <= i <= self.hosts@.len(),
                ex == (match except {
                    Some(e) => Some(e as int),
                    None => None,
                }),
                forall|k: int|
                    0 <= k < i && ex != Some(k) ==> lower_seq(#[trigger] self.hosts_v()[k].alias)
                        != lower_seq(alias@),
            decreases self.hosts@.len() - i,
        {
            let excluded = match except {
                Some(e) => e == i,
                None => false,
            };
            if !excluded && crate::text::str_eq_ci(self.hosts[i].alias.as_str(), alias) {
                proof {
                    assert(ex != Some(i as int));
                    assert(lower_seq(self.hosts_v()[i as int].alias) == lower_seq(alias@));
                }
                return true;
            }
            i = i + 1;
        }
        false
    }

    fn matches_query(h: &SshHost, q: &str) -> (r: bool)
        ensures
            r == host_matches(h@, q@),
    {
        crate::text::str_contains_ci(h.alias.as_str(), q) || crate::text::str_contains_ci(
            h.hostname.as_str(),
            q,
        ) || crate::text::str_contains_ci(h.user.as_str(), q)
    }

    /// Recompute the filtered view from the current registry and query,
    /// and clamp the cursor to it.
    fn rebuild_filter(&mut self)
        ensures
            *final(self) == (AppService {
                visible_indices: final(self).visible_indices,
                cursor: final(self).cursor,
                ..*old(self)
            }),
            filter_ok(
                final(self).visible_indices@,
                final(self).hosts_v(),
                final(self).search_query@,
            ),
            final(self).visible_indices@.len() == 0 ==> final(self).cursor == 0,
            final(self).visible_indices@.len() > 0 ==> final(self).cursor
                < final(self).visible_indices@.len(),
            final(self).cursor == if old(self).cursor < final(self).visible_indices@.len() {
                old(self).cursor
            } else {
                if final(self).visible_indices@.len() == 0 {
                    0
                } else {
                    (final(self).visible_indices@.len() - 1) as usize
                }
            },
    {
        let mut vis: Vec<usize> = Vec::new();
        let mut i: usize = 0;
        while i < self.hosts.len()
            invariant
                0 <= i <= self.hosts@.len(),
                forall|j: int|
                    0 <= j < vis@.len() ==> #[trigger] vis@[j] < i && host_matches(
                        self.hosts_v()[vis@[j] as int],
                        self.search_query@,
                    ),
                forall|j1: int, j2: int| 0 <= j1 < j2 < vis@.len() ==> vis@[j1] < vis@[j2],
                forall|m: int|
                    0 <= m < i && host_matches(#[trigger] self.hosts_v()[m], self.search_query@)
                        ==> vis@.contains(m as usize),
            decreases self.hosts@.len() - i,
        {
            if Self::matches_query(&self.hosts[i], self.search_query.as_str()) {
                let ghost prev = vis@;
                vis.push(i);
                proof {
                    assert(vis@[vis@.len() - 1] == i as usize);
                    assert(forall|m: int|
                        0 <= m < i && host_matches(
                            #[trigger] self.hosts_v()[m],
                            self.search_query@,
                        ) ==> prev.contains(m as usize));
                    assert forall|m: int|
                        0 <= m < i + 1 && host_matches(
                            #[trigger] self.hosts_v()[m],
                            self.search_query@,
                        ) implies vis@.contains(m as usize) by {
                        if m < i {
                            let w = choose|w: int| 0 <= w < prev.len() && prev[w] == m as usize;
                            assert(vis@[w] == m as usize);
                        } else {
                            assert(vis@[vis@.len() - 1] == m as usize);
                        }
                    }
                }
            }
            i = i + 1;
        }
        proof {
            assert(filter_ok(vis@, self.hosts_v(), self.search_query@));
        }
        self.visible_indices = vis;
        let count = self.visible_indices.len();
        if self.cursor >= count {
            self.cursor = if count > 0 {
                count - 1
            } else {
                0
            };
        }
    }

    /// Enter search mode with a fresh query; the filter shows everything
    /// again.
    pub fn enter_search(&mut self)
        requires
            old(self).wf(),
        ensures
            final(self).wf(),
            *final(self) == (AppService {
                mode: Mode::Search,
                search_query: final(self).search_query,
                visible_indices: final(self).visible_indices,
                cursor: final(self).cursor,
                ..*old(self)
            }),
            final(self).search_query@.len() == 0,
            final(self).visible_indices@.len() == final(self).hosts@.len(),
    {
        self.search_query = String::new();
        self.rebuild_filter();
        self.mode = Mode::Search;
        let hc: usize = self.hosts.len();
        proof {
            assert(self.hosts_v().len() == hc);
            lemma_empty_query_matches_all(self.hosts_v());
            lemma_filter_of_all(self.visible_indices@, self.hosts_v(), self.search_query@);
        }
    }

    /// Append one character to the query and refilter.
    pub fn search_type(&mut self, c: char)
        requires
            old(self).wf(),
        ensures
            final(self).wf(),
            *final(self) == (AppService {
                search_query: final(self).search_query,
                visible_indices: final(self).visible_indices,
                cursor: final(self).cursor,
                ..*old(self)
            }),
            final(self).search_query@ == old(self).search_query@.push(c),
    {
        self.search_query.push(c);
        self.rebuild_filter();
    }

    /// Remove the last character of the query and refilter.
    pub fn search_backspace(&mut self)
        requires
            old(self).wf(),
        ensures
            final(self).wf(),
            *final(self) == (AppService {
                search_query: final(self).search_query,
                visible_indices: final(self).visible_indices,
                cursor: final(self).cursor,
                ..*old(self)
            }),
            final(self).search_query@ == if old(self).search_query@.len() > 0 {
                old(self).search_query@.drop_last()
            } else {
                old(self).search_query@
            },
    {
        let n = self.search_query.as_str().unicode_len();
        if n > 0 {
            let shorter = self.search_query.as_str().substring_char(0, n - 1).to_owned();
            proof {
                assert(self.search_query@.subrange(0, n - 1) =~= self.search_query@.drop_last());
            }
            self.search_query = shorter;
        }
        self.rebuild_filter();
    }

    /// Leave search mode keeping the filter applied.
    pub fn finish_search(&mut self)
        requires
            old(self).wf(),
        ensures
            final(self).wf(),
            *final(self) == (AppService { mode: Mode::Normal, ..*old(self) }),
    {
        self.mode = Mode::Normal;
    }

    /// Leave search mode discarding the filter.
    pub fn cancel_search(&mut self)
        requires
            old(self).wf(),
        ensures
            final(self).wf(),
            *final(self) == (AppService {
                mode: Mode::Normal,
                search_query: final(self).search_query,
                visible_indices: final(self).visible_indices,
                cursor: final(self).cursor,
                ..*old(self)
            }),
            final(self).search_query@.len() == 0,
            final(self).visible_indices@.len() == final(self).hosts@.len(),
    {
        self.search_query = String::new();
        self.rebuild_filter();
        self.mode = Mode::Normal;
        let hc: usize = self.hosts.len();
        proof {
            assert(self.hosts_v().len() == hc);
            lemma_empty_query_matches_all(self.hosts_v());
            lemma_filter_of_all(self.visible_indices@, self.hosts_v(), self.search_query@);
        }
    }

    /// Open the add form with a fresh draft.
    pub fn begin_add(&mut self)
        requires
            old(self).wf(),
        ensures
            final(self).wf(),
            *final(self) == (AppService {
                form_draft: final(self).form_draft,
                form_field: FormField::Alias,
                mode: Mode::AddHost,
                ..*old(self)
            }),
            final(self).form_draft@ == empty_host_view(),
    {
        self.form_draft = SshHost::empty();
        self.form_field = FormField::Alias;
        self.mode = Mode::AddHost;
    }

    /// Open the edit form over the selected entry, when there is one.
    pub fn begin_edit(&mut self)
        requires
            old(self).wf(),
        ensures
            final(self).wf(),
            old(self).visible_indices@.len() == 0 ==> *final(self) == *old(self),
            old(self).visible_indices@.len() > 0 ==> {
                let i = old(self).visible_indices@[old(self).cursor as int];
                *final(self) == (AppService {
                    form_draft: final(self).form_draft,
                    form_field: FormField::Alias,
                    mode: Mode::EditHost(i),
                    ..*old(self)
                }) && final(self).form_draft@ == old(self).hosts_v()[i as int]
            },
    {
        match self.selected_real_index() {
            Some(index) => {
                self.form_draft = self.hosts[index].clone();
                self.form_field = FormField::Alias;
                self.mode = Mode::EditHost(index);
            },
            None => (),
        }
    }

    /// Ask for confirmation before deleting the selected entry, when there
    /// is one.
    pub fn begin_delete(&mut self)
        requires
            old(self).wf(),
        ensures
            final(self).wf(),
            old(self).visible_indices@.len() == 0 ==> *final(self) == *old(self),
            old(self).visible_indices@.len() > 0 ==> *final(self) == (AppService {
                mode: Mode::ConfirmDelete(old(self).visible_indices@[old(self).cursor as int]),
                ..*old(self)
            }),
    {
        match self.selected_real_index() {
            Some(index) => {
                self.mode = Mode::ConfirmDelete(index);
            },
            None => (),
        }
    }

    /// Leave the current workflow without committing anything.
    pub fn cancel_mode(&mut self)
        requires
            old(self).wf(),
        ensures
            final(self).wf(),
            *final(self) == (AppService { mode: Mode::Normal, ..*old(self) }),
    {
        self.mode = Mode::Normal;
    }

    /// Commit the add form: reject an invalid draft or a taken alias with
    /// an error notification and stay in the form; otherwise append the
    /// draft and persist, discarding the appended entry again when
    /// persisting fails. Either way the form closes.
    pub fn commit_add<R: SshRepository>(&mut self, ssh_repo: &mut R)
        requires
            old(self).wf(),
        ensures
            final(self).wf(),
            final(self).preamble == old(self).preamble,
            final(self).form_draft == old(self).form_draft,
            final(self).search_query == old(self).search_query,
            final(self).notification is Some,
            (!host_valid(old(self).form_draft@) || alias_taken(
                old(self).hosts_v(),
                old(self).form_draft@.alias,
                None,
            )) ==> {
                &&& *final(self) == (AppService {
                    notification: final(self).notification,
                    ..*old(self)
                })
                &&& note_is_error(final(self).notification)
                &&& *final(ssh_repo) == *old(ssh_repo)
            },
            (host_valid(old(self).form_draft@) && !alias_taken(
                old(self).hosts_v(),
                old(self).form_draft@.alias,
                None,
            )) ==> {
                &&& final(self).mode == Mode::Normal
                &&& (!note_is_error(final(self).notification) ==> final(self).hosts_v() == old(self).hosts_v().push(old(self).form_draft@) && final(ssh_repo).stored() == Some(
                    crate::config::spec_serialize(old(self).preamble@, final(self).hosts_v()),
                ) && final(ssh_repo).backups() == (match old(ssh_repo).stored() {
                    Some(c) => old(ssh_repo).backups().push(c),
                    None => old(ssh_repo).backups(),
                }))
                &&& (note_is_error(final(self).notification) ==> final(self).hosts_v() == old(self).hosts_v() && final(ssh_repo).stored() == old(ssh_repo).stored() && final(ssh_repo).backups() == old(ssh_repo).backups())
                &&& (aliases_unique(old(self).hosts_v()) ==> aliases_unique(final(self).hosts_v()))
            },
    {
        if !self.form_draft.is_valid() {
            self.notification = Some((String::from_str("Alias and HostName are required"), true));
            return ;
        }
        let dup = self.alias_conflicts(self.form_draft.alias.as_str(), None);
        if dup {
            let mut m = String::from_str("'");
            m.append(self.form_draft.alias.as_str());
            m.append("' already exists");
            self.notification = Some((m, true));
            return ;
        }
        let ghost hosts0 = self.hosts_v();
        let name = self.form_draft.alias.clone();
        self.hosts.push(self.form_draft.clone());
        proof {
            assert(self.hosts_v() =~= hosts0.push(old(self).form_draft@));
            assert forall|i: int, j: int|
                0 <= i < j < self.hosts_v().len() && aliases_unique(hosts0) implies lower_seq(
                #[trigger] self.hosts_v()[i].alias,
            ) != lower_seq(#[trigger] self.hosts_v()[j].alias) by {
                if j + 1 == self.hosts_v().len() {
                    assert(!alias_taken(hosts0, old(self).form_draft@.alias, None));
                    assert(lower_seq(hosts0[i].alias) != lower_seq(old(self).form_draft@.alias));
                }
            }
        }
        let saved = ssh_repo.save_all(self.preamble.as_str(), &self.hosts);
        match saved {
            Ok(_) => {
                let mut m = String::from_str("Added '");
                m.append(name.as_str());
                m.append("'");
                self.notification = Some((m, false));
            },
            Err(e) => {
                self.hosts.pop();
                proof {
                    assert(self.hosts_v() =~= hosts0);
                }
                self.notification = Some((e, true));
            },
        }
        self.rebuild_filter();
        self.mode = Mode::Normal;
    }

    /// Commit the edit form over entry `index`: reject an invalid draft or
    /// an alias taken by another entry; otherwise replace the entry and
    /// persist, restoring the prior entry verbatim when persisting fails.
    pub fn commit_edit<R: SshRepository>(&mut self, index: usize, ssh_repo: &mut R)
        requires
            old(self).wf(),
            index < old(self).hosts@.len(),
        ensures
            final(self).wf(),
            final(self).preamble == old(self).preamble,
            final(self).form_draft == old(self).form_draft,
            final(self).search_query == old(self).search_query,
            final(self).notification is Some,
            (!host_valid(old(self).form_draft@) || alias_taken(
                old(self).hosts_v(),
                old(self).form_draft@.alias,
                Some(index as int),
            )) ==> {
                &&& *final(self) == (AppService {
                    notification: final(self).notification,
                    ..*old(self)
                })
                &&& note_is_error(final(self).notification)
                &&& *final(ssh_repo) == *old(ssh_repo)
            },
            (host_valid(old(self).form_draft@) && !alias_taken(
                old(self).hosts_v(),
                old(self).form_draft@.alias,
                Some(index as int),
            )) ==> {
                &&& final(self).mode == Mode::Normal
                &&& (!note_is_error(final(self).notification) ==> final(self).hosts_v() == old(self).hosts_v().update(index as int, old(self).form_draft@) && final(ssh_repo).stored() == Some(
                    crate::config::spec_serialize(old(self).preamble@, final(self).hosts_v()),
                ) && final(ssh_repo).backups() == (match old(ssh_repo).stored() {
                    Some(c) => old(ssh_repo).backups().push(c),
                    None => old(ssh_repo).backups(),
                }))
                &&& (note_is_error(final(self).notification) ==> final(self).hosts_v() == old(self).hosts_v() && final(ssh_repo).stored() == old(ssh_repo).stored() && final(ssh_repo).backups() == old(ssh_repo).backups())
                &&& (aliases_unique(old(self).hosts_v()) ==> aliases_unique(final(self).hosts_v()))
            },
    {
        if !self.form_draft.is_valid() {
            self.notification = Some((String::from_str("Alias and HostName are required"), true));
            return ;
        }
        let dup = self.alias_conflicts(self.form_draft.alias.as_str(), Some(index));
        if dup {
            let mut m = String::from_str("'");
            m.append(self.form_draft.alias.as_str());
            m.append("' already exists");
            self.notification = Some((m, true));
            return ;
        }
        let ghost hosts0 = self.hosts_v();
        let name = self.form_draft.alias.clone();
        let backup = self.hosts[index].clone();
        self.hosts.set(index, self.form_draft.clone());
        proof {
            assert(self.hosts_v() =~= hosts0.update(index as int, old(self).form_draft@));
            assert forall|i: int, j: int|
                0 <= i < j < self.hosts_v().len() && aliases_unique(hosts0) implies lower_seq(
                #[trigger] self.hosts_v()[i].alias,
            ) != lower_seq(#[trigger] self.hosts_v()[j].alias) by {
                assert(!alias_taken(hosts0, old(self).form_draft@.alias, Some(index as int)));
                if i == index {
                    assert(lower_seq(hosts0[j].alias) != lower_seq(old(self).form_draft@.alias));
                }
                if j == index {
                    assert(lower_seq(hosts0[i].alias) != lower_seq(old(self).form_draft@.alias));
                }
            }
        }
        let saved = ssh_repo.save_all(self.preamble.as_str(), &self.hosts);
        match saved {
            Ok(_) => {
                let mut m = String::from_str("Updated '");
                m.append(name.as_str());
                m.append("'");
                self.notification = Some((m, false));
            },
            Err(e) => {
                self.hosts.set(index, backup);
                proof {
                    assert(self.hosts_v() =~= hosts0);
                }
                self.notification = Some((e, true));
            },
        }
        self.rebuild_filter();
        self.mode = Mode::Normal;
    }

    /// Delete entry `index` and persist; when persisting fails the entry
    /// is reinserted at its old position and the error reported.
    pub fn commit_delete<R: SshRepository>(&mut self, index: usize, ssh_repo: &mut R)
        requires
            old(self).wf(),
            index < old(self).hosts@.len(),
        ensures
            final(self).wf(),
            final(self).preamble == old(self).preamble,
            final(self).search_query == old(self).search_query,
            final(self).mode == Mode::Normal,
            final(self).notification is Some,
            !note_is_error(final(self).notification) ==> final(self).hosts_v() == old(self).hosts_v().remove(index as int) && final(ssh_repo).stored() == Some(
                crate::config::spec_serialize(old(self).preamble@, final(self).hosts_v()),
            ) && final(ssh_repo).backups() == (match old(ssh_repo).stored() {
                Some(c) => old(ssh_repo).backups().push(c),
                None => old(ssh_repo).backups(),
            }),
            note_is_error(final(self).notification) ==> final(self).hosts_v() == old(self).hosts_v() && final(ssh_repo).stored() == old(ssh_repo).stored() && final(ssh_repo).backups() == old(ssh_repo).backups(),
    {
        let ghost hosts0 = self.hosts_v();
        let removed = self.hosts.remove(index);
        proof {
            assert(self.hosts_v() =~= hosts0.remove(index as int));
        }
        let saved = ssh_repo.save_all(self.preamble.as_str(), &self.hosts);
        match saved {
            Ok(_) => {
                let mut m = String::from_str("Deleted '");
                m.append(removed.alias.as_str());
                m.append("'");
                self.notification = Some((m, false));
            },
            Err(e) => {
                self.hosts.insert(index, removed);
                proof {
                    assert(self.hosts_v() =~= hosts0);
                }
                self.notification = Some((e, true));
            },
        }
        self.rebuild_filter();
        let count = self.visible_indices.len();
        if self.cursor >= count && count > 0 {
            self.cursor = count - 1;
        }
        self.mode = Mode::Normal;
    }

    /// Hand the launcher a session with the selected entry's alias, when
    /// there is a selection.
    pub fn launch_ssh(&mut self)
        requires
            old(self).wf(),
        ensures
            final(self).wf(),
            old(self).visible_indices@.len() == 0 ==> *final(self) == *old(self),
            old(self).visible_indices@.len() > 0 ==> {
                let i = old(self).visible_indices@[old(self).cursor as int];
                *final(self) == (AppService {
                    pending_action: final(self).pending_action,
                    ..*old(self)
                }) && match final(self).pending_action {
                    Action::LaunchSsh(args) => args@.len() == 1 && args@[0]@ == old(self).hosts_v()[i as int].alias,
                    _ => false,
                }
            },
    {
        match self.selected_real_index() {
            Some(index) => {
                let args = self.hosts[index].as_ssh_args();
                self.pending_action = Action::LaunchSsh(args);
            },
            None => (),
        }
    }

    /// Move the form cursor to the next field.
    pub fn form_next_field(&mut self)
        requires
            old(self).wf(),
        ensures
            final(self).wf(),
            *final(self) == (AppService {
                form_field: old(self).form_field.next_spec(),
                ..*old(self)
            }),
    {
        self.form_field = self.form_field.next();
    }

    /// Move the form cursor to the previous field.
    pub fn form_previous_field(&mut self)
        requires
            old(self).wf(),
        ensures
            final(self).wf(),
            *final(self) == (AppService {
                form_field: old(self).form_field.previous_spec(),
                ..*old(self)
            }),
    {
        self.form_field = self.form_field.previous();
    }

    fn read_form_field(&self) -> (r: String)
        ensures
            r@ == form_read_spec(self.form_draft@, self.form_field),
    {
        match self.form_field {
            FormField::Alias => self.form_draft.alias.clone(),
            FormField::HostName => self.form_draft.hostname.clone(),
            FormField::Port => crate::text::u16_to_string(self.form_draft.port),
            FormField::User => self.form_draft.user.clone(),
            FormField::IdentityFile => self.form_draft.identity_file.clone(),
        }
    }

    fn write_form_field(&mut self, value: String)
        ensures
            *final(self) == (AppService { form_draft: final(self).form_draft, ..*old(self) }),
            final(self).form_draft@ == form_write_spec(
                old(self).form_draft@,
                old(self).form_field,
                value@,
            ),
    {
        match self.form_field {
            FormField::Alias => {
                self.form_draft.alias = value;
            },
            FormField::HostName => {
                self.form_draft.hostname = value;
            },
            FormField::Port => {
                self.form_draft.port = match crate::text::parse_u16(value.as_str()) {
                    Some(p) => p,
                    None => 22,
                };
            },
            FormField::User => {
                self.form_draft.user = value;
            },
            FormField::IdentityFile => {
                self.form_draft.identity_file = value;
            },
        }
    }

    /// Type one character into the active field; the port field accepts
    /// digits only, and anything else is ignored.
    pub fn form_type_char(&mut self, c: char)
        requires
            old(self).wf(),
        ensures
            final(self).wf(),
            *final(self) == (AppService { form_draft: final(self).form_draft, ..*old(self) }),
            final(self).form_draft@ == if old(self).form_field.accepts_char_spec(c) {
                form_write_spec(
                    old(self).form_draft@,
                    old(self).form_field,
                    form_read_spec(old(self).form_draft@, old(self).form_field).push(c),
                )
            } else {
                old(self).form_draft@
            },
    {
        if !self.form_field.accepts_char(c) {
            return ;
        }
        let mut value = self.read_form_field();
        value.push(c);
        self.write_form_field(value);
    }

    /// Remove the last character of the active field.
    pub fn form_delete_char(&mut self)
        requires
            old(self).wf(),
        ensures
            final(self).wf(),
            *final(self) == (AppService { form_draft: final(self).form_draft, ..*old(self) }),
            final(self).form_draft@ == ({
                let v = form_read_spec(old(self).form_draft@, old(self).form_field);
                let shorter = if v.len() > 0 {
                    v.drop_last()
                } else {
                    v
                };
                form_write_spec(old(self).form_draft@, old(self).form_field, shorter)
            }),
    {
        let value = self.read_form_field();
        let n = value.as_str().unicode_len();
        if n > 0 {
            let shorter = value.as_str().substring_char(0, n - 1).to_owned();
            proof {
                assert(value@.subrange(0, n - 1) =~= value@.drop_last());
            }
            self.write_form_field(shorter);
        } else {
            self.write_form_field(value);
        }
    }

    /// Open the theme selector on the saved preference, clamped to the
    /// catalog bounds.
    pub fn open_theme_selector(&mut self)
        requires
            old(self).wf(),
        ensures
            final(self).wf(),
            *final(self) == (AppService {
                theme_cursor: final(self).theme_cursor,
                mode: Mode::SelectTheme,
                ..*old(self)
            }),
            final(self).theme_cursor == if old(self).theme_preference.theme_index < old(self).available_themes@.len() {
                old(self).theme_preference.theme_index
            } else {
                (old(self).available_themes@.len() - 1) as usize
            },
    {
        let n = self.available_themes.len();
        let ti = self.theme_preference.theme_index;
        self.theme_cursor = if ti < n {
            ti
        } else {
            n - 1
        };
        self.mode = Mode::SelectTheme;
    }

    /// Move the theme selection one entry up, stopping at the top.
    pub fn theme_cursor_up(&mut self)
        requires
            old(self).wf(),
        ensures
            final(self).wf(),
            *final(self) == (AppService { theme_cursor: final(self).theme_cursor, ..*old(self) }),
            final(self).theme_cursor == if old(self).theme_cursor > 0 {
                (old(self).theme_cursor - 1) as usize
            } else {
                0
            },
    {
        if self.theme_cursor > 0 {
            self.theme_cursor = self.theme_cursor - 1;
        }
    }

    /// Move the theme selection one entry down, stopping at the bottom.
    pub fn theme_cursor_down(&mut self)
        requires
            old(self).wf(),
        ensures
            final(self).wf(),
            *final(self) == (AppService { theme_cursor: final(self).theme_cursor, ..*old(self) }),
            final(self).theme_cursor == if old(self).theme_cursor + 1 < old(self).available_themes@.len() {
                (old(self).theme_cursor + 1) as usize
            } else {
                old(self).theme_cursor
            },
    {
        if self.theme_cursor < self.available_themes.len() - 1 {
            self.theme_cursor = self.theme_cursor + 1;
        }
    }

    /// Apply the theme under the selector cursor, save the preference, and
    /// return to the normal mode. The first catalog entry always applies
    /// transparently; any other keeps the saved transparency choice.
    pub fn apply_selected_theme<T: ThemeRepository>(&mut self, theme_repo: &mut T)
        requires
            old(self).wf(),
        ensures
            final(self).wf(),
            final(self).mode == Mode::Normal,
            ({
                let idx = old(self).theme_cursor;
                let transparent = if idx == 0 {
                    true
                } else {
                    old(self).theme_preference.transparent
                };
                &&& final(self).theme == (Theme {
                    transparent,
                    ..old(self).available_themes@[idx as int]
                })
                &&& final(self).theme_preference == (ThemePreference {
                    theme_index: idx,
                    transparent,
                })
                &&& (final(theme_repo).stored_preference() == Some(final(self).theme_preference)
                    || final(theme_repo).stored_preference() == old(theme_repo).stored_preference())
                &&& *final(self) == (AppService {
                    theme: final(self).theme,
                    theme_preference: final(self).theme_preference,
                    notification: final(self).notification,
                    mode: Mode::Normal,
                    ..*old(self)
                })
                &&& final(self).notification is Some
                &&& !note_is_error(final(self).notification)
            }),
    {
        let index = self.theme_cursor;
        let mut theme = self.available_themes[index].clone();
        theme.transparent = if index == 0 {
            true
        } else {
            self.theme_preference.transparent
        };
        let transparent = theme.transparent;
        let mut m = String::from_str("Theme: ");
        m.append(theme.name.as_str());
        self.theme = theme;
        self.theme_preference = ThemePreference { theme_index: index, transparent };
        theme_repo.save_preference(&self.theme_preference);
        self.notification = Some((m, false));
        self.mode = Mode::Normal;
    }

    /// Flip transparency, remember it in the preference, and save it.
    pub fn toggle_transparency<T: ThemeRepository>(&mut self, theme_repo: &mut T)
        requires
            old(self).wf(),
        ensures
            final(self).wf(),
            final(self).theme == (Theme {
                transparent: !old(self).theme.transparent,
                ..old(self).theme
            }),
            final(self).theme_preference == (ThemePreference {
                transparent: !old(self).theme.transparent,
                ..old(self).theme_preference
            }),
            final(theme_repo).stored_preference() == Some(final(self).theme_preference) || final(theme_repo).stored_preference() == old(theme_repo).stored_preference(),
            *final(self) == (AppService {
                theme: final(self).theme,
                theme_preference: final(self).theme_preference,
                notification: final(self).notification,
                ..*old(self)
            }),
            final(self).notification is Some,
            !note_is_error(final(self).notification),
    {
        let transparent = !self.theme.transparent;
        self.theme.transparent = transparent;
        self.theme_preference = ThemePreference {
            theme_index: self.theme_preference.theme_index,
            transparent,
        };
        theme_repo.save_preference(&self.theme_preference);
        let label = if transparent {
            "ON"
        } else {
            "OFF"
        };
        let mut m = String::from_str("Transparency: ");
        m.append(label);
        self.notification = Some((m, false));
    }

    /// Flip the command-preview pane.
    pub fn toggle_command_preview(&mut self)
        requires
            old(self).wf(),
        ensures
            final(self).wf(),
            *final(self) == (AppService { show_command: !old(self).show_command, ..*old(self) }),
    {
        self.show_command = !self.show_command;
    }

    /// Replace the registry with a fresh parse of the backing store and
    /// refilter. Unsaved interface state (a query, a draft) is left as it
    /// is; the interface invokes this from the normal mode only.
    pub fn reload_from_disk<R: SshRepository>(&mut self, ssh_repo: &R)
        requires
            old(self).wf(),
            old(self).mode == Mode::Normal,
        ensures
            final(self).wf(),
            ({
                let text = match ssh_repo.stored() {
                    Some(t) => t,
                    None => Seq::<char>::empty(),
                };
                final(self).preamble@ == spec_parse(text).0 && final(self).hosts_v() == spec_parse(
                    text,
                ).1
            }),
            final(self).mode == Mode::Normal,
            final(self).search_query == old(self).search_query,
            final(self).form_draft == old(self).form_draft,
            final(self).notification is Some,
            !note_is_error(final(self).notification),
    {
        let loaded = ssh_repo.load_all();
        self.preamble = loaded.0;
        self.hosts = loaded.1;
        self.rebuild_filter();
        let mut m = String::from_str("Reloaded (");
        crate::text::append_usize(&mut m, self.hosts.len());
        m.append(" hosts)");
        self.notification = Some((m, false));
    }

    /// Show the help screen.
    pub fn open_help(&mut self)
        requires
            old(self).wf(),
        ensures
            final(self).wf(),
            *final(self) == (AppService { mode: Mode::Help, ..*old(self) }),
    {
        self.mode = Mode::Help;
    }

    /// Ask the interface loop to quit.
    pub fn request_quit(&mut self)
        requires
            old(self).wf(),
        ensures
            final(self).wf(),
            *final(self) == (AppService { pending_action: Action::Quit, ..*old(self) }),
    {
        self.pending_action = Action::Quit;
    }

    /// Drop the notification; done at the start of every input event.
    pub fn clear_notification(&mut self)
        requires
            old(self).wf(),
        ensures
            final(self).wf(),
            *final(self) == (AppService { notification: None, ..*old(self) }),
    {
        self.notification = None;
    }

    /// Hand out the pending action exactly once, resetting it.
    pub fn take_action(&mut self) -> (r: Action)
        requires
            old(self).wf(),
        ensures
            final(self).wf(),
            r == old(self).pending_action,
            *final(self) == (AppService { pending_action: Action::Continue, ..*old(self) }),
    {
        let mut action = Action::Continue;
        core::mem::swap(&mut self.pending_action, &mut action);
        action
    }
}

/// With an empty query every entry matches.
pub proof fn lemma_empty_query_matches_all(hs: Seq<HostView>)
    ensures
        forall|i: int| 0 <= i < hs.len() ==> host_matches(#[trigger] hs[i], Seq::<char>::empty()),
{
    assert forall|i: int| 0 <= i < hs.len() implies host_matches(
        #[trigger] hs[i],
        Seq::<char>::empty(),
    ) by {
        let q = Seq::<char>::empty();
        let a = hs[i].alias;
        let w: int = 0;
        assert(lower_seq(a.subrange(w, w + q.len())) =~= lower_seq(q));
        assert(is_substring_ci(q, a));
    }
}


/// A filtered view that satisfies `filter_ok` for a query every entry
/// matches lists every position in order, so it is the identity over the
/// registry's positions.
pub proof fn lemma_filter_of_all(vis: Seq<usize>, hosts: Seq<HostView>, q: Seq<char>)
    requires
        filter_ok(vis, hosts, q),
        forall|i: int| 0 <= i < hosts.len() ==> host_matches(#[trigger] hosts[i], q),
        hosts.len() <= usize::MAX,
    ensures
        vis.len() == hosts.len(),
        forall|j: int| 0 <= j < vis.len() ==> #[trigger] vis[j] == j,
{
    lemma_filter_all_prefix(vis, hosts, q, hosts.len() as int);
    if hosts.len() > 0 {
        let k = hosts.len() - 1;
        assert(vis[k] == k);
    }
    if vis.len() > hosts.len() {
        let j = hosts.len() as int;
        lemma_sorted_indices_lower_bound(vis, j);
        assert(vis[j] < hosts.len());
        assert(false);
    }
}

proof fn lemma_filter_all_prefix(vis: Seq<usize>, hosts: Seq<HostView>, q: Seq<char>, i: int)
    requires
        filter_ok(vis, hosts, q),
        forall|k: int| 0 <= k < hosts.len() ==> host_matches(#[trigger] hosts[k], q),
        hosts.len() <= usize::MAX,
        0 <= i <= hosts.len(),
    ensures
        forall|k: int| 0 <= k < i ==> k < vis.len() && #[trigger] vis[k] == k,
    decreases i,
{
    if i > 0 {
        lemma_filter_all_prefix(vis, hosts, q, i - 1);
        let m = i - 1;
        assert(host_matches(hosts[m], q));
        assert(vis.contains(m as usize));
        let w = choose|w: int| 0 <= w < vis.len() && vis[w] == m as usize;
        lemma_sorted_indices_lower_bound(vis, w);
        if w < m {
            assert(vis[w] == w);
            assert(false);
        }
        if w > m {
            assert(vis[m] < vis[w]);
            lemma_sorted_indices_lower_bound(vis, m);
            assert(false);
        }
    }
}

/// In a strictly increasing index sequence, the entry at position `j` is
/// at least `j`.
proof fn lemma_sorted_indices_lower_bound(vis: Seq<usize>, j: int)
    requires
        forall|j1: int, j2: int| 0 <= j1 < j2 < vis.len() ==> vis[j1] < vis[j2],
        0 <= j < vis.len(),
    ensures
        vis[j] >= j,
    decreases j,
{
    if j > 0 {
        lemma_sorted_indices_lower_bound(vis, j - 1);
    }
}

} // verus!
