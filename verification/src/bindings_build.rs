//! Building key bindings from their written form, with the checks that
//! make sure every scope command leads somewhere.

use vstd::prelude::*;
use crate::editor_command::{command_of, CommandError, CommandView, EditorCommand};
use crate::keybinding::{
    group_named, keys_of, BindingsView, EntryView, KeyBindingEntry, KeyBindings, KeyBindingsGroup, KeySet,
};
use crate::text::{begins_with, chars_of, ends_with, finishes_with, spells, starts_with};

verus! {

/// One group as it is written: its name, and its bindings as pairs of
/// a list of chords and a command.
pub type RawGroup = (String, Vec<(String, String)>);

/// Why a set of bindings is refused. `group` and `entry` count from
/// zero, in the order in which the groups and their bindings are given.
#[derive(Debug, Clone, Copy, PartialEq, Eq, Structural)]
pub enum BindingsError {
    /// The group's name is written like a built-in one, between double
    /// underscores, but there is no such built-in group.
    NoSuchBuiltinGroup { group: usize },
    /// The chords of the binding cannot be read.
    InvalidKey { group: usize, entry: usize },
    /// The command of the binding cannot be read.
    InvalidCommand { group: usize, entry: usize, error: CommandError },
    /// The binding's scope command names a group that is not given.
    NoSuchGroup { group: usize, entry: usize },
    /// The group in force while editing is missing.
    MissingMain,
    /// The group in force while the clipboard is placed is missing.
    MissingClipboard,
}

/// Why one binding is refused.
#[derive(Debug, Clone, Copy, PartialEq, Eq, Structural)]
pub enum EntryError {
    InvalidKey,
    InvalidCommand(CommandError),
    NoSuchGroup,
}

/// The written bindings of a group as plain values.
pub open spec fn entries_view(entries: Seq<(String, String)>) -> Seq<(Seq<char>, Seq<char>)> {
    Seq::new(entries.len(), |i: int| (entries[i].0@, entries[i].1@))
}

/// The written groups as plain values.
pub open spec fn raw_view(raw: Seq<RawGroup>) -> Seq<(Seq<char>, Seq<(Seq<char>, Seq<char>)>)> {
    Seq::new(raw.len(), |i: int| (raw[i].0@, entries_view(raw[i].1@)))
}

/// A name written between double underscores.
pub open spec fn is_reserved(name: Seq<char>) -> bool {
    starts_with(name, "__"@) && ends_with(name, "__"@)
}

/// The name of one of the three built-in groups.
pub open spec fn is_builtin(name: Seq<char>) -> bool {
    name == "__main__"@ || name == "__global__"@ || name == "__clipboard__"@
}

/// The name under which remarks may stand among the groups.
pub open spec fn is_comment(name: Seq<char>) -> bool {
    name == "__comment__"@
}

/// Whether a scope command may name `name`: some group is written
/// under that name, and it is neither built-in nor a remark.
pub open spec fn is_scope_name(raw: Seq<(Seq<char>, Seq<(Seq<char>, Seq<char>)>)>, name: Seq<char>) -> bool {
    !is_builtin(name) && !is_comment(name) && exists|i: int| 0 <= i < raw.len() && (#[trigger] raw[i]).0 == name
}

/// The binding written as `keys` and `command`.
pub open spec fn entry_of(
    raw: Seq<(Seq<char>, Seq<(Seq<char>, Seq<char>)>)>,
    keys: Seq<char>,
    command: Seq<char>,
) -> Result<EntryView, EntryError> {
    match keys_of(keys) {
        None => Err(EntryError::InvalidKey),
        Some(ks) => match command_of(command) {
            Err(e) => Err(EntryError::InvalidCommand(e)),
            Ok(c) => if c matches CommandView::Scope(name) && !is_scope_name(raw, name) {
                Err(EntryError::NoSuchGroup)
            } else {
                Ok(EntryView { keys: ks, command: c })
            },
        },
    }
}

/// The first `n` bindings of a written group; on failure, the index of
/// the first binding that is refused, and why.
pub open spec fn group_of(
    raw: Seq<(Seq<char>, Seq<(Seq<char>, Seq<char>)>)>,
    entries: Seq<(Seq<char>, Seq<char>)>,
    n: int,
) -> Result<Seq<EntryView>, (int, EntryError)>
    decreases n,
{
    if n <= 0 {
        Ok(Seq::empty())
    } else {
        match group_of(raw, entries, n - 1) {
            Err(e) => Err(e),
            Ok(done) => match entry_of(raw, entries[n - 1].0, entries[n - 1].1) {
                Ok(e) => Ok(done.push(e)),
                Err(e) => Err((n - 1, e)),
            },
        }
    }
}

/// Index of the first group named `name`, looking from index `i` on.
pub open spec fn index_named(groups: Seq<(Seq<char>, Seq<EntryView>)>, name: Seq<char>, i: int) -> Option<int>
    decreases groups.len() - i,
{
    if i >= groups.len() {
        None
    } else if groups[i].0 == name {
        Some(i)
    } else {
        index_named(groups, name, i + 1)
    }
}

/// `groups` with `group` under `name`: in place of the group that had
/// the name, or at the end.
pub open spec fn put_group(groups: Seq<(Seq<char>, Seq<EntryView>)>, name: Seq<char>, group: Seq<EntryView>) -> Seq<
    (Seq<char>, Seq<EntryView>),
> {
    match index_named(groups, name, 0) {
        Some(i) => groups.update(i, (name, group)),
        None => groups.push((name, group)),
    }
}

/// The groups read so far, the built-in ones apart.
pub struct Built {
    pub main: Option<Seq<EntryView>>,
    pub clipboard: Option<Seq<EntryView>>,
    pub global: Option<Seq<EntryView>>,
    pub groups: Seq<(Seq<char>, Seq<EntryView>)>,
}

/// The error for binding `entry` of group `group`.
pub open spec fn entry_error(group: int, entry: int, e: EntryError) -> BindingsError {
    match e {
        EntryError::InvalidKey => BindingsError::InvalidKey { group: group as usize, entry: entry as usize },
        EntryError::InvalidCommand(error) => BindingsError::InvalidCommand {
            group: group as usize,
            entry: entry as usize,
            error,
        },
        EntryError::NoSuchGroup => BindingsError::NoSuchGroup { group: group as usize, entry: entry as usize },
    }
}

/// What the first `n` written groups come to. A group that is written
/// again takes the place of the earlier one of its name.
pub open spec fn built(raw: Seq<(Seq<char>, Seq<(Seq<char>, Seq<char>)>)>, n: int) -> Result<Built, BindingsError>
    decreases n,
{
    if n <= 0 {
        Ok(Built { main: None, clipboard: None, global: None, groups: Seq::empty() })
    } else {
        match built(raw, n - 1) {
            Err(e) => Err(e),
            Ok(done) => {
                let (name, entries) = raw[n - 1];
                if is_comment(name) {
                    Ok(done)
                } else if is_reserved(name) && !is_builtin(name) {
                    Err(BindingsError::NoSuchBuiltinGroup { group: (n - 1) as usize })
                } else {
                    match group_of(raw, entries, entries.len() as int) {
                        Err((k, e)) => Err(entry_error(n - 1, k, e)),
                        Ok(group) => if name == "__main__"@ {
                            Ok(Built { main: Some(group), ..done })
                        } else if name == "__clipboard__"@ {
                            Ok(Built { clipboard: Some(group), ..done })
                        } else if name == "__global__"@ {
                            Ok(Built { global: Some(group), ..done })
                        } else {
                            Ok(Built { groups: put_group(done.groups, name, group), ..done })
                        },
                    }
                }
            },
        }
    }
}

/// The bindings that the written groups `raw` make up, or the first
/// thing that is wrong with them.
pub open spec fn bindings_of(raw: Seq<(Seq<char>, Seq<(Seq<char>, Seq<char>)>)>) -> Result<
    BindingsView,
    BindingsError,
> {
    match built(raw, raw.len() as int) {
        Err(e) => Err(e),
        Ok(all) => match all.main {
            None => Err(BindingsError::MissingMain),
            Some(main) => match all.clipboard {
                None => Err(BindingsError::MissingClipboard),
                Some(clipboard) => Ok(BindingsView { main, clipboard, global: all.global, groups: all.groups }),
            },
        },
    }
}

/// What kind of name a group has.
#[derive(Clone, Copy, PartialEq, Eq, Structural)]
enum NameKind {
    Comment,
    Main,
    Clipboard,
    Global,
    Unknown,
    Plain,
}

/// What kind of name `name` is.
fn name_kind(name: &String) -> (kind: NameKind)
    ensures
        (kind == NameKind::Comment) == is_comment(name@),
        (kind == NameKind::Main) == (name@ == "__main__"@),
        (kind == NameKind::Clipboard) == (name@ == "__clipboard__"@),
        (kind == NameKind::Global) == (name@ == "__global__"@),
        (kind == NameKind::Unknown) == (is_reserved(name@) && !is_builtin(name@) && !is_comment(name@)),
{
    let chars = chars_of(name.as_str());
    let n = chars.len();
    assert(chars@.subrange(0, n as int) =~= name@);
    proof {
        reveal_strlit("__main__");
        reveal_strlit("__clipboard__");
        reveal_strlit("__global__");
        reveal_strlit("__comment__");
    }
    if spells(&chars, 0, n, "__comment__") {
        NameKind::Comment
    } else if spells(&chars, 0, n, "__main__") {
        NameKind::Main
    } else if spells(&chars, 0, n, "__clipboard__") {
        NameKind::Clipboard
    } else if spells(&chars, 0, n, "__global__") {
        NameKind::Global
    } else if begins_with(&chars, "__") && finishes_with(&chars, "__") {
        NameKind::Unknown
    } else {
        NameKind::Plain
    }
}

/// Whether a scope command may name `name`.
#[verifier::loop_isolation(false)]
fn names_a_group(raw: &Vec<RawGroup>, name: &String) -> (b: bool)
    ensures
        b == is_scope_name(raw_view(raw@), name@),
{
    let kind = name_kind(name);
    if kind == NameKind::Comment || kind == NameKind::Main || kind == NameKind::Clipboard || kind
        == NameKind::Global {
        return false;
    }
    let mut i: usize = 0;
    while i < raw.len()
        invariant
            i <= raw.len(),
            forall|k: int| 0 <= k < i ==> (#[trigger] raw_view(raw@)[k]).0 != name@,
        decreases raw.len() - i,
    {
        assert(raw_view(raw@)[i as int].0 == raw@[i as int].0@);
        if raw[i].0 == *name {
            assert(raw_view(raw@)[i as int].0 == name@);
            return true;
        }
        i += 1;
    }
    false
}

/// Reads one binding.
fn read_entry(raw: &Vec<RawGroup>, keys: &String, command: &String) -> (r: Result<KeyBindingEntry, EntryError>)
    ensures
        match r {
            Ok(entry) => entry_of(raw_view(raw@), keys@, command@) == Ok::<EntryView, EntryError>(entry@),
            Err(e) => entry_of(raw_view(raw@), keys@, command@) == Err::<EntryView, EntryError>(e),
        },
{
    let keys = match KeySet::parse(keys.as_str()) {
        Some(keys) => keys,
        None => {
            return Err(EntryError::InvalidKey);
        },
    };
    let command = match EditorCommand::from_str(command.as_str()) {
        Ok(command) => command,
        Err(e) => {
            return Err(EntryError::InvalidCommand(e));
        },
    };
    let known = match &command {
        EditorCommand::Scope(name) => names_a_group(raw, name),
        _ => true,
    };
    if !known {
        return Err(EntryError::NoSuchGroup);
    }
    Ok(KeyBindingEntry { keys, command })
}

/// Reads the bindings of one group.
#[verifier::loop_isolation(false)]
fn read_group(raw: &Vec<RawGroup>, entries: &Vec<(String, String)>) -> (r: Result<
    KeyBindingsGroup,
    (usize, EntryError),
>)
    ensures
        match r {
            Ok(group) => group_of(raw_view(raw@), entries_view(entries@), entries@.len() as int) == Ok::<
                Seq<EntryView>,
                (int, EntryError),
            >(group@),
            Err((k, e)) => group_of(raw_view(raw@), entries_view(entries@), entries@.len() as int) == Err::<
                Seq<EntryView>,
                (int, EntryError),
            >((k as int, e)),
        },
{
    let ghost rv = raw_view(raw@);
    let ghost ev = entries_view(entries@);
    let mut out: Vec<KeyBindingEntry> = Vec::new();
    let mut i: usize = 0;
    while i < entries.len()
        invariant
            i <= entries.len(),
            rv == raw_view(raw@),
            ev == entries_view(entries@),
            group_of(rv, ev, i as int) matches Ok(done) && done =~= (KeyBindingsGroup { entries: out })@,
        decreases entries.len() - i,
    {
        assert(ev[i as int] == (entries@[i as int].0@, entries@[i as int].1@));
        let ghost before = (KeyBindingsGroup { entries: out })@;
        match read_entry(raw, &entries[i].0, &entries[i].1) {
            Ok(entry) => {
                out.push(entry);
                assert((KeyBindingsGroup { entries: out })@ =~= before.push(entry@));
            },
            Err(e) => {
                proof {
                    lemma_group_refused(rv, ev, i as int + 1, ev.len() as int);
                }
                return Err((i, e));
            },
        }
        i += 1;
    }
    Ok(KeyBindingsGroup { entries: out })
}

/// A group that is refused at one of its bindings stays refused there.
proof fn lemma_group_refused(
    raw: Seq<(Seq<char>, Seq<(Seq<char>, Seq<char>)>)>,
    entries: Seq<(Seq<char>, Seq<char>)>,
    n: int,
    m: int,
)
    requires
        0 <= n <= m,
        group_of(raw, entries, n) is Err,
    ensures
        group_of(raw, entries, m) == group_of(raw, entries, n),
    decreases m - n,
{
    if n < m {
        lemma_group_refused(raw, entries, n, m - 1);
    }
}

/// Bindings that are refused at one of their groups stay refused there.
proof fn lemma_built_refused(raw: Seq<(Seq<char>, Seq<(Seq<char>, Seq<char>)>)>, n: int, m: int)
    requires
        0 <= n <= m,
        built(raw, n) is Err,
    ensures
        built(raw, m) == built(raw, n),
    decreases m - n,
{
    if n < m {
        lemma_built_refused(raw, n, m - 1);
    }
}

/// The named groups as plain values.
pub open spec fn named_view(groups: Seq<(String, KeyBindingsGroup)>) -> Seq<(Seq<char>, Seq<EntryView>)> {
    crate::keybinding::groups_view(groups)
}

/// Puts `group` under `name`: in place of the group that had the name,
/// or at the end.
#[verifier::loop_isolation(false)]
fn store_group(groups: &mut Vec<(String, KeyBindingsGroup)>, name: String, group: KeyBindingsGroup)
    ensures
        named_view(final(groups)@) == put_group(named_view(old(groups)@), name@, group@),
{
    let ghost before = named_view(groups@);
    let mut i: usize = 0;
    while i < groups.len()
        invariant
            i <= groups.len(),
            groups@ == old(groups)@,
            index_named(before, name@, 0) == index_named(before, name@, i as int),
        decreases groups.len() - i,
    {
        assert(before[i as int].0 == groups@[i as int].0@);
        if groups[i].0 == name {
            let ghost n = name@;
            let ghost g = group@;
            groups[i] = (name, group);
            assert(named_view(groups@) =~= before.update(i as int, (n, g)));
            return;
        }
        i += 1;
    }
    let ghost n = name@;
    let ghost g = group@;
    groups.push((name, group));
    assert(named_view(groups@) =~= before.push((n, g)));
}

/// The view of an optional group.
pub open spec fn optional_view(group: Option<KeyBindingsGroup>) -> Option<Seq<EntryView>> {
    match group {
        Some(g) => Some(g@),
        None => None,
    }
}

impl KeyBindings {
    /// Builds the bindings from the written groups `raw`.
    ///
    /// A group named `__comment__` is passed over. Any other name between
    /// double underscores must be `__main__`, `__clipboard__` or
    /// `__global__`. Every binding must list chords that can be read,
    /// and a command that can be read; a scope command must name a group
    /// that is written in `raw` and is not built-in. `__main__` and
    /// `__clipboard__` must be there. The first of these that fails, in
    /// the order of the groups and their bindings, is the error.
    #[verifier::loop_isolation(false)]
    pub fn from_groups(raw: Vec<RawGroup>) -> (r: Result<KeyBindings, BindingsError>)
        ensures
            match r {
                Ok(b) => bindings_of(raw_view(raw@)) == Ok::<BindingsView, BindingsError>(b@),
                Err(e) => bindings_of(raw_view(raw@)) == Err::<BindingsView, BindingsError>(e),
            },
    {
        let ghost rv = raw_view(raw@);
        let mut main: Option<KeyBindingsGroup> = None;
        let mut clipboard: Option<KeyBindingsGroup> = None;
        let mut global: Option<KeyBindingsGroup> = None;
        let mut groups: Vec<(String, KeyBindingsGroup)> = Vec::new();
        let mut i: usize = 0;
        while i < raw.len()
            invariant
                i <= raw.len(),
                rv == raw_view(raw@),
                built(rv, i as int) matches Ok(b) && b.main == optional_view(main) && b.clipboard
                    == optional_view(clipboard) && b.global == optional_view(global) && b.groups
                    =~= named_view(groups@),
            decreases raw.len() - i,
        {
            assert(rv[i as int] == (raw@[i as int].0@, entries_view(raw@[i as int].1@)));
            let kind = name_kind(&raw[i].0);
            if kind == NameKind::Comment {
            } else if kind == NameKind::Unknown {
                proof {
                    lemma_built_refused(rv, i as int + 1, rv.len() as int);
                }
                return Err(BindingsError::NoSuchBuiltinGroup { group: i });
            } else {
                match read_group(&raw, &raw[i].1) {
                    Err((k, e)) => {
                        proof {
                            lemma_built_refused(rv, i as int + 1, rv.len() as int);
                        }
                        return Err(
                            match e {
                                EntryError::InvalidKey => BindingsError::InvalidKey { group: i, entry: k },
                                EntryError::InvalidCommand(error) => BindingsError::InvalidCommand {
                                    group: i,
                                    entry: k,
                                    error,
                                },
                                EntryError::NoSuchGroup => BindingsError::NoSuchGroup { group: i, entry: k },
                            },
                        );
                    },
                    Ok(group) => {
                        if kind == NameKind::Main {
                            main = Some(group);
                        } else if kind == NameKind::Clipboard {
                            clipboard = Some(group);
                        } else if kind == NameKind::Global {
                            global = Some(group);
                        } else {
                            store_group(&mut groups, raw[i].0.clone(), group);
                        }
                    },
                }
            }
            i += 1;
        }
        let main = match main {
            Some(main) => main,
            None => {
                return Err(BindingsError::MissingMain);
            },
        };
        let clipboard = match clipboard {
            Some(clipboard) => clipboard,
            None => {
                return Err(BindingsError::MissingClipboard);
            },
        };
        Ok(KeyBindings { main, clipboard, global, groups })
    }
}

/// Whether every scope command among `entries` names one of `groups`.
pub open spec fn scopes_lead_on(entries: Seq<EntryView>, groups: Seq<(Seq<char>, Seq<EntryView>)>) -> bool {
    forall|i: int|
        0 <= i < entries.len() ==> ((#[trigger] entries[i]).command matches CommandView::Scope(name)
            ==> group_named(groups, name, 0) is Some)
}

impl BindingsView {
    /// Every scope command of the bindings names a group that is there.
    pub open spec fn all_scopes_lead_on(self) -> bool {
        &&& scopes_lead_on(self.main, self.groups)
        &&& scopes_lead_on(self.clipboard, self.groups)
        &&& self.global matches Some(g) ==> scopes_lead_on(g, self.groups)
        &&& forall|k: int| 0 <= k < self.groups.len() ==> scopes_lead_on((#[trigger] self.groups[k]).1, self.groups)
    }
}

/// Whether every scope command among `entries` names a group that is
/// written in `raw`.
pub open spec fn scopes_written(raw: Seq<(Seq<char>, Seq<(Seq<char>, Seq<char>)>)>, entries: Seq<EntryView>) -> bool {
    forall|i: int|
        0 <= i < entries.len() ==> ((#[trigger] entries[i]).command matches CommandView::Scope(name)
            ==> is_scope_name(raw, name))
}

proof fn lemma_group_of_scopes(
    raw: Seq<(Seq<char>, Seq<(Seq<char>, Seq<char>)>)>,
    entries: Seq<(Seq<char>, Seq<char>)>,
    n: int,
)
    requires
        group_of(raw, entries, n) is Ok,
    ensures
        scopes_written(raw, group_of(raw, entries, n)->Ok_0),
    decreases n,
{
    if n > 0 {
        lemma_group_of_scopes(raw, entries, n - 1);
        let done = group_of(raw, entries, n - 1)->Ok_0;
        let all = group_of(raw, entries, n)->Ok_0;
        assert forall|i: int| 0 <= i < all.len() implies ((#[trigger] all[i]).command matches CommandView::Scope(
            name,
        ) ==> is_scope_name(raw, name)) by {
            if i < done.len() {
                assert(all[i] == done[i]);
            }
        }
    }
}

proof fn lemma_index_named_range(groups: Seq<(Seq<char>, Seq<EntryView>)>, name: Seq<char>, i: int)
    requires
        0 <= i,
    ensures
        match index_named(groups, name, i) {
            Some(k) => i <= k < groups.len() && groups[k].0 == name && group_named(groups, name, i) == Some(
                groups[k].1,
            ),
            None => group_named(groups, name, i) is None,
        },
    decreases groups.len() - i,
{
    if i < groups.len() && groups[i].0 != name {
        lemma_index_named_range(groups, name, i + 1);
    }
}

/// After a group is put under a name, that name is found, and every
/// other name is found as before.
proof fn lemma_put_group_named(
    groups: Seq<(Seq<char>, Seq<EntryView>)>,
    name: Seq<char>,
    group: Seq<EntryView>,
    other: Seq<char>,
    i: int,
)
    requires
        0 <= i <= groups.len(),
    ensures
        other != name ==> (group_named(put_group(groups, name, group), other, i) is Some <==> group_named(
            groups,
            other,
            i,
        ) is Some),
        other == name && (index_named(groups, name, 0) matches Some(k) ==> i <= k) ==> group_named(
            put_group(groups, name, group),
            other,
            i,
        ) is Some,
    decreases groups.len() - i,
{
    let after = put_group(groups, name, group);
    lemma_index_named_range(groups, name, 0);
    if i < groups.len() {
        lemma_put_group_named(groups, name, group, other, i + 1);
        match index_named(groups, name, 0) {
            Some(k) => {
                assert(after[i].0 == groups[i].0);
            },
            None => {
                assert(after[i] == groups[i]);
            },
        }
    } else {
        match index_named(groups, name, 0) {
            Some(k) => {},
            None => {
                assert(after[groups.len() as int] == (name, group));
                assert(group_named(after, other, i + 1) is None);
            },
        }
    }
}

/// What holds of the groups read from the first `n` written ones: their
/// scope commands name written groups, and every written group that a
/// scope command may name is among them.
pub open spec fn built_well(raw: Seq<(Seq<char>, Seq<(Seq<char>, Seq<char>)>)>, n: int, b: Built) -> bool {
    &&& b.main matches Some(g) ==> scopes_written(raw, g)
    &&& b.clipboard matches Some(g) ==> scopes_written(raw, g)
    &&& b.global matches Some(g) ==> scopes_written(raw, g)
    &&& forall|k: int| 0 <= k < b.groups.len() ==> scopes_written(raw, (#[trigger] b.groups[k]).1)
    &&& forall|k: int|
        0 <= k < n && !is_builtin((#[trigger] raw[k]).0) && !is_comment(raw[k].0) ==> group_named(
            b.groups,
            raw[k].0,
            0,
        ) is Some
}

proof fn lemma_built_well(raw: Seq<(Seq<char>, Seq<(Seq<char>, Seq<char>)>)>, n: int)
    requires
        0 <= n <= raw.len(),
        built(raw, n) is Ok,
    ensures
        built_well(raw, n, built(raw, n)->Ok_0),
    decreases n,
{
    if n > 0 {
        lemma_built_well(raw, n - 1);
        let done = built(raw, n - 1)->Ok_0;
        let now = built(raw, n)->Ok_0;
        let (name, entries) = raw[n - 1];
        if !is_comment(name) {
            lemma_group_of_scopes(raw, entries, entries.len() as int);
            let group = group_of(raw, entries, entries.len() as int)->Ok_0;
            if !is_builtin(name) {
                let after = put_group(done.groups, name, group);
                assert(now.groups == after);
                lemma_index_named_range(done.groups, name, 0);
                assert forall|k: int| 0 <= k < after.len() implies scopes_written(raw, (#[trigger] after[k]).1) by {
                    if k < done.groups.len() && after[k] != (name, group) {
                        assert(after[k] == done.groups[k]);
                    }
                }
                assert forall|k: int|
                    0 <= k < n && !is_builtin((#[trigger] raw[k]).0) && !is_comment(raw[k].0) implies group_named(
                    after,
                    raw[k].0,
                    0,
                ) is Some by {
                    lemma_put_group_named(done.groups, name, group, raw[k].0, 0);
                }
            }
        }
    }
}

/// In bindings that were built, every scope command names a group that
/// is there: resolving chords never runs into a missing group.
pub proof fn lemma_built_scopes_lead_on(raw: Seq<(Seq<char>, Seq<(Seq<char>, Seq<char>)>)>)
    requires
        bindings_of(raw) is Ok,
    ensures
        bindings_of(raw)->Ok_0.all_scopes_lead_on(),
{
    let b = bindings_of(raw)->Ok_0;
    lemma_built_well(raw, raw.len() as int);
    assert forall|entries: Seq<EntryView>| scopes_written(raw, entries) implies scopes_lead_on(
        entries,
        b.groups,
    ) by {
        assert forall|i: int| 0 <= i < entries.len() implies ((#[trigger] entries[i]).command matches CommandView::Scope(
            name,
        ) ==> group_named(b.groups, name, 0) is Some) by {
            match entries[i].command {
                CommandView::Scope(name) => {
                    assert(is_scope_name(raw, name));
                    let k = choose|k: int| 0 <= k < raw.len() && (#[trigger] raw[k]).0 == name;
                    assert(group_named(b.groups, raw[k].0, 0) is Some);
                },
                _ => {},
            }
        }
    }
}

} // verus!
