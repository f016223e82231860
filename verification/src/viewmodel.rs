//! The interactive view model: it owns the tree and its projection, applies
//! every event the pipeline delivers, and decides what each user action
//! means. Terminal input, rendering and the store worker live outside this
//! library; they call these decision functions and perform what is decided.

use vstd::prelude::*;

use crate::config::ProtectedNamespace;
use crate::config::ProtectionLevel;
use crate::flatten::FlatModel;
use crate::flatten::TreeViewState;
use crate::flatten::clone_opt_string;
use crate::flatten::clone_path;
use crate::flatten::flatten_spec;
use crate::flatten::rows_model;
use crate::flatten::selection_after;
use crate::flatten::toggle_node_at_path;
use crate::flatten::toggle_spec;
use crate::format::has_prefix;
use crate::kinds::RedisType;
use crate::kinds::RedisValue;
use crate::node_model::forest_model;
use crate::pipeline::RedisCommand;
use crate::pipeline::UiMessage;
use crate::tree::TreeBuilder;
use crate::tree::TreeNode;
use crate::tree::build_spec;
use crate::tree::keys_model;

verus! {

/// Which pane has the keyboard focus.
#[derive(Debug, Clone, Copy, PartialEq, Eq, Structural)]
pub enum Focus {
    Tree,
    Value,
}

/// The status line's content, as structured data; rendering it as text is
/// the presentation layer's concern.
#[derive(Debug)]
pub enum Status {
    Loading,
    LoadedKeys(usize),
    LoadedValue(String),
    Failure(String),
    Saved(String),
    Deleted(String),
    Rescanning,
    ReadOnlyMode,
    OnlyStringsEditable,
    NoChanges,
}

/// A modal dialog the view shows over the panes.
#[derive(Debug)]
pub enum Dialog {
    Help,
    Confirm { title: String, message: String, confirm_text: String },
    Protection { namespace: String, level: ProtectionLevel },
    DiffPreview { key: String, old_value: String, new_value: String },
}

/// A copy of a delimiter list.
fn clone_chars(v: &Vec<char>) -> (r: Vec<char>)
    ensures
        r@ == v@,
{
    let mut r: Vec<char> = Vec::new();
    let n = v.len();
    let mut i: usize = 0;
    while i < n
        invariant
            i <= n,
            n == v@.len(),
            r@ == v@.take(i as int),
        decreases n - i,
    {
        r.push(v[i]);
        proof {
            assert(v@.take(i + 1) =~= v@.take(i as int).push(v@[i as int]));
        }
        i += 1;
    }
    proof {
        assert(v@.take(n as int) =~= v@);
    }
    r
}

/// The view model's state.
pub struct ViewModel {
    pub delimiters: Vec<char>,
    pub readonly: bool,
    pub protected_namespaces: Vec<ProtectedNamespace>,
    pub tree_nodes: Vec<TreeNode>,
    pub tree_state: TreeViewState,
    pub selected_value: Option<RedisValue>,
    pub selected_type: Option<RedisType>,
    pub selected_ttl: Option<i64>,
    pub value_scroll: u16,
    pub focus: Focus,
    pub should_quit: bool,
    pub status: Status,
    pub current_dialog: Option<Dialog>,
}

/// The row the selection addresses, if it is in range.
pub open spec fn selected_row(vm: ViewModel) -> Option<FlatModel> {
    match vm.tree_state.selected {
        None => None,
        Some(i) => if i < rows_model(vm.tree_state.flattened@).len() {
            Some(rows_model(vm.tree_state.flattened@)[i as int])
        } else {
            None
        },
    }
}

/// The first protected namespace whose prefix starts the key, or the list
/// length when none does.
pub open spec fn find_protection(nss: Seq<ProtectedNamespace>, key: Seq<char>) -> int
    decreases nss.len(),
{
    if nss.len() == 0 {
        0
    } else if key.len() >= nss[0].prefix@.len() && key.take(nss[0].prefix@.len() as int)
        == nss[0].prefix@ {
        0
    } else {
        1 + find_protection(nss.drop_first(), key)
    }
}

pub proof fn lemma_find_protection(nss: Seq<ProtectedNamespace>, key: Seq<char>)
    ensures
        0 <= find_protection(nss, key) <= nss.len(),
        find_protection(nss, key) < nss.len() ==> {
            let p = nss[find_protection(nss, key)].prefix@;
            key.len() >= p.len() && key.take(p.len() as int) == p
        },
        forall|j: int|
            0 <= j < find_protection(nss, key) ==> !(key.len() >= (#[trigger] nss[j]).prefix@.len()
                && key.take(nss[j].prefix@.len() as int) == nss[j].prefix@),
    decreases nss.len(),
{
    if nss.len() == 0 {
    } else if key.len() >= nss[0].prefix@.len() && key.take(nss[0].prefix@.len() as int)
        == nss[0].prefix@ {
    } else {
        lemma_find_protection(nss.drop_first(), key);
        let rec = find_protection(nss.drop_first(), key);
        assert forall|j: int|
            0 <= j < 1 + rec implies !(key.len() >= (#[trigger] nss[j]).prefix@.len() && key.take(
            nss[j].prefix@.len() as int,
        ) == nss[j].prefix@) by {
            if j > 0 {
                assert(nss[j] == nss.drop_first()[j - 1]);
            }
        }
    }
}

impl ViewModel {
    /// A fresh view model over the given configuration, with an empty tree,
    /// nothing selected and the initial loading status.
    pub fn new(
        delimiters: Vec<char>,
        readonly: bool,
        protected_namespaces: Vec<ProtectedNamespace>,
    ) -> (r: Self)
        ensures
            r.delimiters == delimiters,
            r.readonly == readonly,
            r.protected_namespaces == protected_namespaces,
            r.tree_nodes@.len() == 0,
            r.tree_state.selected is None,
            r.tree_state.flattened@.len() == 0,
            r.selected_value is None,
            r.selected_type is None,
            r.selected_ttl is None,
            r.value_scroll == 0,
            r.focus == Focus::Tree,
            !r.should_quit,
            r.status is Loading,
            r.current_dialog is None,
    {
        ViewModel {
            delimiters,
            readonly,
            protected_namespaces,
            tree_nodes: Vec::new(),
            tree_state: TreeViewState::new(),
            selected_value: None,
            selected_type: None,
            selected_ttl: None,
            value_scroll: 0,
            focus: Focus::Tree,
            should_quit: false,
            status: Status::Loading,
            current_dialog: None,
        }
    }

    /// Apply one event from the pipeline. A key-list load rebuilds the tree
    /// wholesale and re-flattens it, clamping the selection; a value load
    /// replaces the selected value and resets the scroll, but is discarded
    /// as stale when its key no longer matches the selected one; a
    /// successful delete asks for a fresh full rescan as follow-up.
    pub fn handle_message(&mut self, msg: UiMessage) -> (follow_up: Option<RedisCommand>)
        requires
            old(self).delimiters@.len() > 0,
        ensures
            final(self).delimiters == old(self).delimiters,
            final(self).readonly == old(self).readonly,
            final(self).protected_namespaces == old(self).protected_namespaces,
            final(self).focus == old(self).focus,
            final(self).should_quit == old(self).should_quit,
            final(self).current_dialog == old(self).current_dialog,
            !(msg is ValueLoaded) ==> {
                &&& final(self).selected_value == old(self).selected_value
                &&& final(self).selected_ttl == old(self).selected_ttl
                &&& final(self).selected_type == old(self).selected_type
                &&& final(self).value_scroll == old(self).value_scroll
            },
            msg matches UiMessage::KeysLoaded(keys) ==> {
                &&& forest_model(final(self).tree_nodes@) == build_spec(
                    keys_model(keys@),
                    old(self).delimiters@,
                )
                &&& rows_model(final(self).tree_state.flattened@) == flatten_spec(
                    forest_model(final(self).tree_nodes@),
                )
                &&& final(self).tree_state.selected == selection_after(
                    old(self).tree_state.selected,
                    flatten_spec(forest_model(final(self).tree_nodes@)).len(),
                )
                &&& final(self).status matches Status::LoadedKeys(n) && n == keys@.len()
                &&& follow_up is None
            },
            msg matches UiMessage::ValueLoaded { key, value, ttl, redis_type } ==> ({
                let sel = crate::flatten::selected_key_of(
                    old(self).tree_state.selected,
                    rows_model(old(self).tree_state.flattened@),
                );
                &&& ((sel matches Some(k) && k == key@) ==> {
                    &&& final(self).selected_value == Some(value)
                    &&& final(self).selected_ttl == Some(ttl)
                    &&& final(self).selected_type == Some(redis_type)
                    &&& final(self).value_scroll == 0
                    &&& final(self).status matches Status::LoadedValue(k2) && k2 == key
                })
                &&& (!(sel matches Some(k) && k == key@) ==> *final(self) == *old(self))
                &&& final(self).tree_nodes == old(self).tree_nodes
                &&& final(self).tree_state == old(self).tree_state
                &&& follow_up is None
            }),
            msg matches UiMessage::Error(e) ==> {
                &&& final(self).status matches Status::Failure(t) && t == e
                &&& final(self).tree_nodes == old(self).tree_nodes
                &&& final(self).tree_state == old(self).tree_state
                &&& follow_up is None
            },
            msg matches UiMessage::WriteSuccess(k) ==> {
                &&& final(self).status matches Status::Saved(t) && t == k
                &&& final(self).tree_nodes == old(self).tree_nodes
                &&& final(self).tree_state == old(self).tree_state
                &&& follow_up is None
            },
            msg matches UiMessage::DeleteSuccess(k) ==> {
                &&& final(self).status matches Status::Deleted(t) && t == k
                &&& final(self).tree_nodes == old(self).tree_nodes
                &&& final(self).tree_state == old(self).tree_state
                &&& follow_up matches Some(c) && (c matches RedisCommand::ScanKeys { pattern }
                    && pattern@ == "*"@)
            },
    {
        match msg {
            UiMessage::KeysLoaded(keys) => {
                let builder = TreeBuilder::new(clone_chars(&self.delimiters));
                let count = keys.len();
                self.tree_nodes = builder.build(keys.as_slice());
                self.tree_state.flatten(&self.tree_nodes);
                self.status = Status::LoadedKeys(count);
                None
            },
            UiMessage::ValueLoaded { key, value, ttl, redis_type } => {
                // a stale result: the selection moved on while the fetch was
                // in flight; discard it rather than show the wrong value
                let fresh = match self.tree_state.selected_key() {
                    Some(sel) => sel == key,
                    None => false,
                };
                if fresh {
                    self.selected_value = Some(value);
                    self.selected_ttl = Some(ttl);
                    self.selected_type = Some(redis_type);
                    self.value_scroll = 0;
                    self.status = Status::LoadedValue(key);
                }
                None
            },
            UiMessage::Error(e) => {
                self.status = Status::Failure(e);
                None
            },
            UiMessage::WriteSuccess(k) => {
                self.status = Status::Saved(k);
                None
            },
            UiMessage::DeleteSuccess(k) => {
                self.status = Status::Deleted(k);
                let pattern = String::from_str("*");
                Some(RedisCommand::ScanKeys { pattern })
            },
        }
    }

    /// The command that reloads the selected key's value, when a directly
    /// addressable row is selected.
    pub fn load_selected(&self) -> (cmd: Option<RedisCommand>)
        ensures
            ({
                let k = crate::flatten::selected_key_of(
                    self.tree_state.selected,
                    rows_model(self.tree_state.flattened@),
                );
                &&& (cmd is Some) == (k is Some)
                &&& (cmd is Some ==> (cmd->0 matches RedisCommand::GetValue { key } && key@
                    == k->0))
            }),
    {
        match self.tree_state.selected_key() {
            Some(key) => Some(RedisCommand::GetValue { key }),
            None => None,
        }
    }

    /// Expand or collapse the selected folder, re-flattening the view; on a
    /// non-folder row, load its value instead. Nothing happens without a
    /// valid selection.
    pub fn expand_or_load(&mut self) -> (cmd: Option<RedisCommand>)
        ensures
            final(self).delimiters == old(self).delimiters,
            final(self).readonly == old(self).readonly,
            final(self).protected_namespaces == old(self).protected_namespaces,
            final(self).selected_value == old(self).selected_value,
            final(self).selected_ttl == old(self).selected_ttl,
            final(self).selected_type == old(self).selected_type,
            final(self).value_scroll == old(self).value_scroll,
            final(self).focus == old(self).focus,
            final(self).should_quit == old(self).should_quit,
            final(self).status == old(self).status,
            final(self).current_dialog == old(self).current_dialog,
            selected_row(*old(self)) is None ==> *final(self) == *old(self) && cmd is None,
            selected_row(*old(self)) matches Some(row) ==> (row.is_folder ==> {
                &&& forest_model(final(self).tree_nodes@) == toggle_spec(
                    forest_model(old(self).tree_nodes@),
                    row.path,
                )
                &&& rows_model(final(self).tree_state.flattened@) == flatten_spec(
                    forest_model(final(self).tree_nodes@),
                )
                &&& final(self).tree_state.selected == selection_after(
                    old(self).tree_state.selected,
                    flatten_spec(forest_model(final(self).tree_nodes@)).len(),
                )
                &&& cmd is None
            }),
            selected_row(*old(self)) matches Some(row) ==> (!row.is_folder ==> {
                &&& *final(self) == *old(self)
                &&& (cmd is Some) == (row.full_key is Some)
                &&& (cmd is Some ==> (cmd->0 matches RedisCommand::GetValue { key } && key@
                    == row.full_key->0))
            }),
    {
        let idx = match self.tree_state.selected {
            None => {
                return None;
            },
            Some(i) => i,
        };
        if idx >= self.tree_state.flattened.len() {
            return None;
        }
        let node = &self.tree_state.flattened[idx];
        if node.is_folder {
            let path = clone_path(&node.node_index);
            toggle_node_at_path(&mut self.tree_nodes, &path);
            self.tree_state.flatten(&self.tree_nodes);
            None
        } else {
            match clone_opt_string(&node.full_key) {
                Some(key) => Some(RedisCommand::GetValue { key }),
                None => None,
            }
        }
    }

    /// Collapse the selected folder when it is expanded; anything else is
    /// left untouched.
    pub fn collapse_selected(&mut self)
        ensures
            final(self).delimiters == old(self).delimiters,
            final(self).readonly == old(self).readonly,
            final(self).protected_namespaces == old(self).protected_namespaces,
            final(self).selected_value == old(self).selected_value,
            final(self).selected_ttl == old(self).selected_ttl,
            final(self).selected_type == old(self).selected_type,
            final(self).value_scroll == old(self).value_scroll,
            final(self).focus == old(self).focus,
            final(self).should_quit == old(self).should_quit,
            final(self).status == old(self).status,
            final(self).current_dialog == old(self).current_dialog,
            selected_row(*old(self)) matches Some(row) ==> ((row.is_folder && row.expanded)
                ==> {
                &&& forest_model(final(self).tree_nodes@) == toggle_spec(
                    forest_model(old(self).tree_nodes@),
                    row.path,
                )
                &&& rows_model(final(self).tree_state.flattened@) == flatten_spec(
                    forest_model(final(self).tree_nodes@),
                )
                &&& final(self).tree_state.selected == selection_after(
                    old(self).tree_state.selected,
                    flatten_spec(forest_model(final(self).tree_nodes@)).len(),
                )
            }),
            !(selected_row(*old(self)) matches Some(row) && row.is_folder && row.expanded)
                ==> *final(self) == *old(self),
    {
        let idx = match self.tree_state.selected {
            None => {
                return ;
            },
            Some(i) => i,
        };
        if idx >= self.tree_state.flattened.len() {
            return ;
        }
        let node = &self.tree_state.flattened[idx];
        if node.is_folder && node.expanded {
            let path = clone_path(&node.node_index);
            toggle_node_at_path(&mut self.tree_nodes, &path);
            self.tree_state.flatten(&self.tree_nodes);
        }
    }

    /// Flip the keyboard focus between the two panes.
    pub fn toggle_focus(&mut self)
        ensures
            *final(self) == (ViewModel {
                focus: if old(self).focus is Tree {
                    Focus::Value
                } else {
                    Focus::Tree
                },
                ..*old(self)
            }),
    {
        self.focus = match self.focus {
            Focus::Tree => Focus::Value,
            Focus::Value => Focus::Tree,
        };
    }

    /// Ask the interactive loop to end.
    pub fn quit(&mut self)
        ensures
            *final(self) == (ViewModel { should_quit: true, ..*old(self) }),
    {
        self.should_quit = true;
    }

    /// Scroll the value pane down, saturating.
    pub fn scroll_down(&mut self, lines: u16)
        ensures
            *final(self) == (ViewModel {
                value_scroll: if old(self).value_scroll + lines > u16::MAX {
                    u16::MAX
                } else {
                    (old(self).value_scroll + lines) as u16
                },
                ..*old(self)
            }),
    {
        if self.value_scroll > u16::MAX - lines {
            self.value_scroll = u16::MAX;
        } else {
            self.value_scroll = self.value_scroll + lines;
        }
    }

    /// Scroll the value pane up, saturating.
    pub fn scroll_up(&mut self, lines: u16)
        ensures
            *final(self) == (ViewModel {
                value_scroll: if old(self).value_scroll >= lines {
                    (old(self).value_scroll - lines) as u16
                } else {
                    0u16
                },
                ..*old(self)
            }),
    {
        if self.value_scroll >= lines {
            self.value_scroll = self.value_scroll - lines;
        } else {
            self.value_scroll = 0;
        }
    }

    /// Scroll the value pane back to the top.
    pub fn scroll_top(&mut self)
        ensures
            *final(self) == (ViewModel { value_scroll: 0u16, ..*old(self) }),
    {
        self.value_scroll = 0;
    }

    /// Note that a full rescan was requested, and the command to submit.
    pub fn request_rescan(&mut self) -> (cmd: RedisCommand)
        ensures
            *final(self) == (ViewModel { status: Status::Rescanning, ..*old(self) }),
            cmd matches RedisCommand::ScanKeys { pattern } && pattern@ == "*"@,
    {
        self.status = Status::Rescanning;
        let pattern = String::from_str("*");
        RedisCommand::ScanKeys { pattern }
    }

    /// Close the open dialog, if any.
    pub fn dismiss_dialog(&mut self)
        ensures
            *final(self) == (ViewModel { current_dialog: None, ..*old(self) }),
    {
        self.current_dialog = None;
    }

    /// Confirm the open dialog: a confirmed diff preview yields the write
    /// command (unless the session is read-only); the dialog closes either
    /// way.
    pub fn confirm_dialog(&mut self) -> (cmd: Option<RedisCommand>)
        ensures
            *final(self) == (ViewModel { current_dialog: None, ..*old(self) }),
            old(self).current_dialog matches Some(Dialog::DiffPreview { key, old_value, new_value })
                ==> (!old(self).readonly ==> (cmd matches Some(c) && (c
                matches RedisCommand::SetValue { key: k2, value } && k2@ == key@ && value@
                == vstd::utf8::encode_utf8(new_value@)))),
            old(self).current_dialog matches Some(Dialog::DiffPreview { key, old_value, new_value })
                ==> (old(self).readonly ==> cmd is None),
            !(old(self).current_dialog matches Some(Dialog::DiffPreview { key, old_value, new_value }))
                ==> cmd is None,
    {
        let cmd = match &self.current_dialog {
            Some(Dialog::DiffPreview { key, old_value: _, new_value }) => {
                if !self.readonly {
                    Some(
                        RedisCommand::SetValue {
                            key: key.clone(),
                            value: new_value.as_str().as_bytes_vec(),
                        },
                    )
                } else {
                    None
                }
            },
            _ => None,
        };
        self.current_dialog = None;
        cmd
    }

    /// The first protected namespace whose prefix starts the key, if any.
    pub fn check_protection(&self, key: &String) -> (r: Option<&ProtectedNamespace>)
        ensures
            ({
                let idx = find_protection(self.protected_namespaces@, key@);
                &&& (r is Some) == (idx < self.protected_namespaces@.len())
                &&& (r is Some ==> *r->0 == self.protected_namespaces@[idx])
            }),
    {
        let ghost nss = self.protected_namespaces@;
        let n = self.protected_namespaces.len();
        let mut i: usize = 0;
        while i < n
            invariant
                i <= n,
                n == nss.len(),
                nss == self.protected_namespaces@,
                forall|j: int|
                    0 <= j < i ==> !(key@.len() >= (#[trigger] nss[j]).prefix@.len() && key@.take(
                        nss[j].prefix@.len() as int,
                    ) == nss[j].prefix@),
            decreases n - i,
        {
            if has_prefix(key.as_str(), self.protected_namespaces[i].prefix.as_str()) {
                proof {
                    lemma_find_protection(nss, key@);
                    if find_protection(nss, key@) < i as int {
                        assert(false);
                    }
                    if find_protection(nss, key@) > i as int {
                        assert(false);
                    }
                }
                return Some(&self.protected_namespaces[i]);
            }
            i += 1;
        }
        proof {
            lemma_find_protection(nss, key@);
            if find_protection(nss, key@) < n as int {
                assert(false);
            }
        }
        None
    }

    /// What the edit action does, by precedence: refused in a read-only
    /// session; nothing without an addressable selection; blocked behind the
    /// matching protected namespace; refused for non-string values; else the
    /// editor opens on the current string value.
    pub fn edit_decision(&self) -> (r: EditDecision)
        ensures
            self.readonly ==> r is ReadOnly,
            !self.readonly ==> ({
                let k = crate::flatten::selected_key_of(
                    self.tree_state.selected,
                    rows_model(self.tree_state.flattened@),
                );
                &&& (k is None ==> r is NoSelection)
                &&& (k matches Some(key) ==> ({
                    let idx = find_protection(self.protected_namespaces@, key);
                    &&& (idx < self.protected_namespaces@.len() ==> (r
                        matches EditDecision::Protected(ns) && ns
                        == self.protected_namespaces@[idx]))
                    &&& (idx == self.protected_namespaces@.len() ==> ({
                        &&& (self.selected_value matches Some(RedisValue::String(s)) ==> (r
                            matches EditDecision::OpenEditor { key: k2, current } && k2@ == key
                            && current@ == s@))
                        &&& (!(self.selected_value matches Some(RedisValue::String(s))) ==> r
                            is NotAString)
                    }))
                }))
            }),
    {
        if self.readonly {
            return EditDecision::ReadOnly;
        }
        let key = match self.tree_state.selected_key() {
            None => {
                return EditDecision::NoSelection;
            },
            Some(k) => k,
        };
        match self.check_protection(&key) {
            Some(ns) => EditDecision::Protected(ns.clone()),
            None => match &self.selected_value {
                Some(RedisValue::String(s)) => EditDecision::OpenEditor {
                    key,
                    current: s.clone(),
                },
                _ => EditDecision::NotAString,
            },
        }
    }

    /// What the delete action does, by precedence: refused in a read-only
    /// session; nothing without an addressable selection; blocked behind the
    /// matching protected namespace; else a confirmation is asked for.
    pub fn delete_decision(&self) -> (r: DeleteDecision)
        ensures
            self.readonly ==> r is ReadOnly,
            !self.readonly ==> ({
                let k = crate::flatten::selected_key_of(
                    self.tree_state.selected,
                    rows_model(self.tree_state.flattened@),
                );
                &&& (k is None ==> r is NoSelection)
                &&& (k matches Some(key) ==> ({
                    let idx = find_protection(self.protected_namespaces@, key);
                    &&& (idx < self.protected_namespaces@.len() ==> (r
                        matches DeleteDecision::Protected(ns) && ns
                        == self.protected_namespaces@[idx]))
                    &&& (idx == self.protected_namespaces@.len() ==> (r
                        matches DeleteDecision::Confirm { key: k2 } && k2@ == key))
                }))
            }),
    {
        if self.readonly {
            return DeleteDecision::ReadOnly;
        }
        let key = match self.tree_state.selected_key() {
            None => {
                return DeleteDecision::NoSelection;
            },
            Some(k) => k,
        };
        match self.check_protection(&key) {
            Some(ns) => DeleteDecision::Protected(ns.clone()),
            None => DeleteDecision::Confirm { key },
        }
    }
}

/// The edit action's outcome.
#[derive(Debug)]
pub enum EditDecision {
    ReadOnly,
    NoSelection,
    Protected(ProtectedNamespace),
    NotAString,
    OpenEditor { key: String, current: String },
}

/// The delete action's outcome.
#[derive(Debug)]
pub enum DeleteDecision {
    ReadOnly,
    NoSelection,
    Protected(ProtectedNamespace),
    Confirm { key: String },
}

} // verus!
