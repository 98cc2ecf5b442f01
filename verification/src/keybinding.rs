//! Key bindings: groups of chords bound to commands, and the resolver
//! that turns the chords pressed so far into a command.

use vstd::prelude::*;
use crate::editor_command::{CommandView, EditorCommand};
use crate::key_input::{key_of, KeyInput};
use crate::text::chars_of;

verus! {

/// The chords pressed since the last command.
#[derive(Debug, Default)]
pub struct KeySequence(pub Vec<KeyInput>);

/// The chords that one binding answers to.
#[derive(Debug, Clone, PartialEq, Eq, PartialOrd, Ord)]
pub struct KeySet(pub Vec<KeyInput>);

/// One binding: any chord of `keys` gives `command`.
#[derive(Debug)]
pub struct KeyBindingEntry {
    pub keys: KeySet,
    pub command: EditorCommand,
}

/// The bindings of one group, in the order in which they are tried.
#[derive(Debug)]
pub struct KeyBindingsGroup {
    pub entries: Vec<KeyBindingEntry>,
}

/// All bindings: the group in force while editing, the group in force
/// while the clipboard is placed, a group tried after either of them at
/// every step, and the named groups that a scope command leads to.
#[derive(Debug)]
pub struct KeyBindings {
    pub main: KeyBindingsGroup,
    pub clipboard: KeyBindingsGroup,
    pub global: Option<KeyBindingsGroup>,
    pub groups: Vec<(String, KeyBindingsGroup)>,
}

/// A binding as plain values.
pub struct EntryView {
    pub keys: Seq<KeyInput>,
    pub command: CommandView,
}

/// All bindings as plain values.
pub struct BindingsView {
    pub main: Seq<EntryView>,
    pub clipboard: Seq<EntryView>,
    pub global: Option<Seq<EntryView>>,
    pub groups: Seq<(Seq<char>, Seq<EntryView>)>,
}

impl View for KeySequence {
    type V = Seq<KeyInput>;

    open spec fn view(&self) -> Seq<KeyInput> {
        self.0@
    }
}

impl View for KeySet {
    type V = Seq<KeyInput>;

    open spec fn view(&self) -> Seq<KeyInput> {
        self.0@
    }
}

impl View for KeyBindingEntry {
    type V = EntryView;

    open spec fn view(&self) -> EntryView {
        EntryView { keys: self.keys@, command: self.command@ }
    }
}

impl View for KeyBindingsGroup {
    type V = Seq<EntryView>;

    open spec fn view(&self) -> Seq<EntryView> {
        Seq::new(self.entries@.len(), |i: int| self.entries@[i]@)
    }
}

/// The named groups as plain values.
pub open spec fn groups_view(groups: Seq<(String, KeyBindingsGroup)>) -> Seq<(Seq<char>, Seq<EntryView>)> {
    Seq::new(groups.len(), |i: int| (groups[i].0@, groups[i].1@))
}

impl View for KeyBindings {
    type V = BindingsView;

    open spec fn view(&self) -> BindingsView {
        BindingsView {
            main: self.main@,
            clipboard: self.clipboard@,
            global: match self.global {
                Some(g) => Some(g@),
                None => None,
            },
            groups: groups_view(self.groups@),
        }
    }
}

/// Index of the first of `entries`, from index `i` on, that answers to
/// `key`.
pub open spec fn first_match(entries: Seq<EntryView>, key: KeyInput, i: int) -> Option<int>
    decreases entries.len() - i,
{
    if i >= entries.len() {
        None
    } else if entries[i].keys.contains(key) {
        Some(i)
    } else {
        first_match(entries, key, i + 1)
    }
}

/// The first group named `name`, looking from index `i` on.
pub open spec fn group_named(groups: Seq<(Seq<char>, Seq<EntryView>)>, name: Seq<char>, i: int) -> Option<
    Seq<EntryView>,
>
    decreases groups.len() - i,
{
    if i >= groups.len() {
        None
    } else if groups[i].0 == name {
        Some(groups[i].1)
    } else {
        group_named(groups, name, i + 1)
    }
}

impl BindingsView {
    /// The bindings tried at one step from within `group`: those of the
    /// group, then the global ones.
    pub open spec fn tried(self, group: Seq<EntryView>) -> Seq<EntryView> {
        match self.global {
            Some(g) => group + g,
            None => group,
        }
    }

    /// What the chords `keys`, pressed from within `group`, come to.
    ///
    /// `Ok(Some(command))`: the chords give that command. `Ok(None)`:
    /// they are the beginning of a binding, and more are awaited.
    /// `Err(())`: nothing is bound to them.
    ///
    /// The chords are taken one by one. The first binding among those
    /// tried that answers to the chord decides: a scope command leads
    /// on to the named group, where the next chord is taken; any other
    /// command is the result.
    pub open spec fn resolve(self, group: Seq<EntryView>, keys: Seq<KeyInput>) -> Result<Option<CommandView>, ()>
        decreases keys.len(),
    {
        if keys.len() == 0 {
            Ok(None)
        } else {
            match first_match(self.tried(group), keys[0], 0) {
                None => Err(()),
                Some(i) => match self.tried(group)[i].command {
                    CommandView::Scope(name) => match group_named(self.groups, name, 0) {
                        Some(next) => self.resolve(next, keys.skip(1)),
                        None => Err(()),
                    },
                    command => Ok(Some(command)),
                },
            }
        }
    }
}

/// Whether `keys` holds `key`.
pub(crate) fn holds_key(keys: &KeySet, key: KeyInput) -> (b: bool)
    ensures
        b == keys@.contains(key),
{
    let mut i: usize = 0;
    while i < keys.0.len()
        invariant
            i <= keys.0.len(),
            forall|j: int| 0 <= j < i ==> keys@[j] != key,
        decreases keys.0.len() - i,
    {
        if keys.0[i] == key {
            return true;
        }
        i += 1;
    }
    false
}

/// The first binding of `group` that answers to `key`.
fn find_entry<'a>(group: &'a KeyBindingsGroup, key: KeyInput) -> (found: Option<&'a KeyBindingEntry>)
    ensures
        match found {
            Some(entry) => first_match(group@, key, 0) matches Some(i) && group@[i] == entry@,
            None => first_match(group@, key, 0) is None,
        },
{
    let mut i: usize = 0;
    while i < group.entries.len()
        invariant
            i <= group.entries.len(),
            first_match(group@, key, 0) == first_match(group@, key, i as int),
        decreases group.entries.len() - i,
    {
        let entry = &group.entries[i];
        assert(group@[i as int] == entry@);
        if holds_key(&entry.keys, key) {
            return Some(entry);
        }
        i += 1;
    }
    None
}

/// The first match among two runs of bindings is the first match in
/// the first run, or else the first match in the second.
pub proof fn lemma_first_match_concat(a: Seq<EntryView>, b: Seq<EntryView>, key: KeyInput, i: int)
    requires
        0 <= i <= a.len(),
    ensures
        first_match(a + b, key, i) == match first_match(a, key, i) {
            Some(k) => Some(k),
            None => match first_match(b, key, 0) {
                Some(k) => Some(a.len() + k),
                None => None,
            },
        },
        first_match(a, key, i) matches Some(k) ==> i <= k < a.len() && (a + b)[k] == a[k],
        first_match(b, key, 0) matches Some(k) ==> 0 <= k < b.len() && (a + b)[a.len() + k] == b[k],
    decreases a.len() - i,
{
    if i < a.len() {
        assert((a + b)[i] == a[i]);
        if !a[i].keys.contains(key) {
            lemma_first_match_concat(a, b, key, i + 1);
        } else {
            lemma_first_match_in_range(b, key, 0);
        }
    } else {
        lemma_first_match_shift(a, b, key, 0);
        lemma_first_match_in_range(b, key, 0);
    }
}

proof fn lemma_first_match_in_range(b: Seq<EntryView>, key: KeyInput, i: int)
    requires
        0 <= i,
    ensures
        first_match(b, key, i) matches Some(k) ==> i <= k < b.len() && b[k].keys.contains(key),
    decreases b.len() - i,
{
    if i < b.len() && !b[i].keys.contains(key) {
        lemma_first_match_in_range(b, key, i + 1);
    }
}

proof fn lemma_first_match_shift(a: Seq<EntryView>, b: Seq<EntryView>, key: KeyInput, j: int)
    requires
        0 <= j <= b.len(),
    ensures
        first_match(a + b, key, a.len() + j) == match first_match(b, key, j) {
            Some(k) => Some(a.len() + k),
            None => None,
        },
    decreases b.len() - j,
{
    if j < b.len() {
        assert((a + b)[a.len() + j] == b[j]);
        if !b[j].keys.contains(key) {
            lemma_first_match_shift(a, b, key, j + 1);
        }
    }
}

impl KeySequence {
    /// Adds a chord at the end.
    pub fn push(&mut self, key: KeyInput)
        ensures
            final(self)@ == old(self)@.push(key),
    {
        self.0.push(key);
    }

    /// Forgets the chords.
    pub fn clear(&mut self)
        ensures
            final(self)@ == Seq::<KeyInput>::empty(),
    {
        self.0.clear();
    }
}

impl KeyBindings {
    /// The group named `name`.
    pub fn group(&self, name: &String) -> (found: Option<&KeyBindingsGroup>)
        ensures
            match found {
                Some(g) => group_named(self@.groups, name@, 0) == Some(g@),
                None => group_named(self@.groups, name@, 0) is None,
            },
    {
        let mut i: usize = 0;
        while i < self.groups.len()
            invariant
                i <= self.groups.len(),
                group_named(self@.groups, name@, 0) == group_named(self@.groups, name@, i as int),
            decreases self.groups.len() - i,
        {
            assert(self@.groups[i as int] == (self.groups@[i as int].0@, self.groups@[i as int].1@));
            if self.groups[i].0 == *name {
                return Some(&self.groups[i].1);
            }
            i += 1;
        }
        None
    }

    /// The first binding tried from within `group` that answers to `key`.
    fn first_binding<'a>(&'a self, group: &'a KeyBindingsGroup, key: KeyInput) -> (found: Option<
        &'a KeyBindingEntry,
    >)
        ensures
            match found {
                Some(entry) => first_match(self@.tried(group@), key, 0) matches Some(i) && self@.tried(
                    group@,
                )[i] == entry@,
                None => first_match(self@.tried(group@), key, 0) is None,
            },
    {
        proof {
            match self@.global {
                Some(g) => lemma_first_match_concat(group@, g, key, 0),
                None => lemma_first_match_in_range(group@, key, 0),
            }
        }
        match find_entry(group, key) {
            Some(entry) => Some(entry),
            None => match &self.global {
                Some(global) => find_entry(global, key),
                None => None,
            },
        }
    }

    /// What the chords `keys`, pressed from within `group`, come to: a
    /// command, the wish for more chords (`Ok(None)`), or nothing at all
    /// (`Err(())`). See [`BindingsView::resolve`].
    pub fn find<'a>(&'a self, group: &'a KeyBindingsGroup, keys: &KeySequence) -> (r: Result<
        Option<&'a EditorCommand>,
        (),
    >)
        ensures
            match r {
                Ok(Some(command)) => self@.resolve(group@, keys@) == Ok::<Option<CommandView>, ()>(
                    Some(command@),
                ),
                Ok(None) => self@.resolve(group@, keys@) == Ok::<Option<CommandView>, ()>(None),
                Err(_) => self@.resolve(group@, keys@) == Err::<Option<CommandView>, ()>(()),
            },
    {
        let mut current: &'a KeyBindingsGroup = group;
        let mut k: usize = 0;
        assert(keys@.skip(0) =~= keys@);
        while k < keys.0.len()
            invariant
                k <= keys.0.len(),
                self@.resolve(group@, keys@) == self@.resolve(current@, keys@.skip(k as int)),
            decreases keys.0.len() - k,
        {
            let key = keys.0[k];
            let ghost rest = keys@.skip(k as int);
            assert(rest[0] == key);
            assert(rest.skip(1) =~= keys@.skip(k as int + 1));
            match self.first_binding(current, key) {
                None => {
                    return Err(());
                },
                Some(entry) => match &entry.command {
                    EditorCommand::Scope(name) => match self.group(name) {
                        Some(next) => {
                            current = next;
                        },
                        None => {
                            return Err(());
                        },
                    },
                    command => {
                        return Ok(Some(command));
                    },
                },
            }
            k += 1;
        }
        assert(keys@.skip(k as int).len() == 0);
        Ok(None)
    }
}

/// A first chord that nothing is bound to is undefined, whatever
/// follows it.
pub proof fn lemma_unbound_chord_is_undefined(b: BindingsView, group: Seq<EntryView>, keys: Seq<KeyInput>)
    requires
        keys.len() > 0,
        first_match(b.tried(group), keys[0], 0) is None,
    ensures
        b.resolve(group, keys) == Err::<Option<CommandView>, ()>(()),
{
}

/// A chord bound to a scope command leads into the named group: alone
/// it awaits more chords, and with more chords it comes to what they
/// come to in that group.
pub proof fn lemma_scope_chord_leads_on(
    b: BindingsView,
    group: Seq<EntryView>,
    keys: Seq<KeyInput>,
    i: int,
    name: Seq<char>,
    next: Seq<EntryView>,
)
    requires
        keys.len() > 0,
        first_match(b.tried(group), keys[0], 0) == Some(i),
        b.tried(group)[i].command == CommandView::Scope(name),
        group_named(b.groups, name, 0) == Some(next),
    ensures
        b.resolve(group, keys) == b.resolve(next, keys.skip(1)),
        keys.len() == 1 ==> b.resolve(group, keys) == Ok::<Option<CommandView>, ()>(None),
{
    if keys.len() == 1 {
        assert(keys.skip(1).len() == 0);
    }
}

/// A chord bound to a command other than a scope gives that command.
pub proof fn lemma_bound_chord_resolves(b: BindingsView, group: Seq<EntryView>, keys: Seq<KeyInput>, i: int)
    requires
        keys.len() > 0,
        first_match(b.tried(group), keys[0], 0) == Some(i),
        !(b.tried(group)[i].command is Scope),
    ensures
        b.resolve(group, keys) == Ok::<Option<CommandView>, ()>(Some(b.tried(group)[i].command)),
{
}

/// The characters that the dot commands of `entries` draw, in the order
/// of the bindings.
pub open spec fn dot_chars(entries: Seq<EntryView>) -> Seq<char>
    decreases entries.len(),
{
    if entries.len() == 0 {
        Seq::empty()
    } else {
        match entries.last().command {
            CommandView::Dot(c) => dot_chars(entries.drop_last()).push(c),
            _ => dot_chars(entries.drop_last()),
        }
    }
}

/// The characters that the dot commands of the named groups draw.
pub open spec fn groups_dot_chars(groups: Seq<(Seq<char>, Seq<EntryView>)>) -> Seq<char>
    decreases groups.len(),
{
    if groups.len() == 0 {
        Seq::empty()
    } else {
        groups_dot_chars(groups.drop_last()) + dot_chars(groups.last().1)
    }
}

impl BindingsView {
    /// The characters that can be drawn: those of the dot commands
    /// bound while editing, globally, or in a named group.
    pub open spec fn fg_chars(self) -> Seq<char> {
        dot_chars(self.main) + (match self.global {
            Some(g) => dot_chars(g),
            None => Seq::empty(),
        }) + groups_dot_chars(self.groups)
    }
}

/// Appends the characters that the dot commands of `group` draw.
fn push_dot_chars(out: &mut Vec<char>, group: &KeyBindingsGroup)
    ensures
        final(out)@ == old(out)@ + dot_chars(group@),
{
    let ghost before = out@;
    let mut i: usize = 0;
    while i < group.entries.len()
        invariant
            i <= group.entries.len(),
            out@ == before + dot_chars(group@.take(i as int)),
        decreases group.entries.len() - i,
    {
        let ghost upto = group@.take(i as int + 1);
        assert(upto.drop_last() =~= group@.take(i as int));
        assert(upto.last() == group.entries@[i as int]@);
        match &group.entries[i].command {
            EditorCommand::Dot(c) => {
                out.push(*c);
                assert(out@ =~= before + dot_chars(upto));
            },
            _ => {},
        }
        i += 1;
    }
    assert(group@.take(group.entries.len() as int) =~= group@);
}

/// The keys that the tokens closed within the first `n` characters of
/// `s` write, and the index at which the open token starts. Tokens are
/// parted by commas. The keys are nothing once a token writes no key.
pub open spec fn scan_keys(s: Seq<char>, n: int) -> (Option<Seq<KeyInput>>, int)
    decreases n,
{
    if n <= 0 {
        (Some(Seq::empty()), 0)
    } else {
        let (done, start) = scan_keys(s, n - 1);
        if s[n - 1] == ',' {
            (with_key(done, key_of(s.subrange(start, n - 1))), n)
        } else {
            (done, start)
        }
    }
}

/// `done` with one more key, if both are there.
pub open spec fn with_key(done: Option<Seq<KeyInput>>, key: Option<KeyInput>) -> Option<Seq<KeyInput>> {
    match (done, key) {
        (Some(d), Some(k)) => Some(d.push(k)),
        _ => None,
    }
}

/// The chords that `s` lists: the written forms of one or more chords,
/// parted by commas. Nothing if any of them is not a chord.
pub open spec fn keys_of(s: Seq<char>) -> Option<Seq<KeyInput>> {
    let (done, start) = scan_keys(s, s.len() as int);
    with_key(done, key_of(s.subrange(start, s.len() as int)))
}

proof fn lemma_scan_keys_start(s: Seq<char>, n: int)
    requires
        0 <= n <= s.len(),
    ensures
        0 <= scan_keys(s, n).1 <= n,
    decreases n,
{
    if n > 0 {
        lemma_scan_keys_start(s, n - 1);
    }
}

/// `keys`, each in its written form, with `sep` between them.
pub open spec fn joined(keys: Seq<KeyInput>, sep: Seq<char>) -> Seq<char>
    decreases keys.len(),
{
    if keys.len() == 0 {
        Seq::empty()
    } else if keys.len() == 1 {
        keys[0].text()
    } else {
        joined(keys.drop_last(), sep) + sep + keys.last().text()
    }
}

/// The written forms of `keys` with `sep` between them.
fn join_keys(keys: &Vec<KeyInput>, sep: &str) -> (s: String)
    ensures
        s@ == joined(keys@, sep@),
{
    let mut s = String::new();
    let mut i: usize = 0;
    while i < keys.len()
        invariant
            i <= keys.len(),
            s@ == joined(keys@.take(i as int), sep@),
        decreases keys.len() - i,
    {
        let ghost upto = keys@.take(i as int + 1);
        assert(upto.drop_last() =~= keys@.take(i as int));
        assert(upto.last() == keys@[i as int]);
        if i > 0 {
            vstd::string::StringExecFns::append(&mut s, sep);
        }
        keys[i].write_to(&mut s);
        assert(s@ =~= joined(upto, sep@)) by {
            if i == 0 {
                assert(upto[0] == keys@[0]);
            }
        }
        i += 1;
    }
    assert(keys@.take(keys.len() as int) =~= keys@);
    s
}

impl KeySet {
    /// Reads the chords that `text` lists, parted by commas.
    pub fn parse(text: &str) -> (keys: Option<KeySet>)
        ensures
            match keys {
                Some(set) => keys_of(text@) == Some(set@),
                None => keys_of(text@) is None,
            },
    {
        let chars = chars_of(text);
        let ghost s = text@;
        let mut keys: Vec<KeyInput> = Vec::new();
        let mut start: usize = 0;
        let mut i: usize = 0;
        while i < chars.len()
            invariant
                i <= chars.len(),
                chars@ == s,
                s == text@,
                start <= i,
                scan_keys(s, i as int) == (Some(keys@), start as int),
            decreases chars.len() - i,
        {
            if chars[i] == ',' {
                match KeyInput::from_chars(&chars, start, i) {
                    Some(key) => {
                        keys.push(key);
                    },
                    None => {
                        proof {
                            assert(scan_keys(s, i as int + 1).0 is None);
                            lemma_keys_lost(s, i as int + 1, s.len() as int);
                        }
                        return None;
                    },
                }
                start = i + 1;
            }
            i += 1;
        }
        match KeyInput::from_chars(&chars, start, chars.len()) {
            Some(key) => {
                keys.push(key);
                Some(KeySet(keys))
            },
            None => None,
        }
    }

    /// The chords in their written form, parted by commas.
    pub fn to_string(&self) -> (s: String)
        ensures
            s@ == joined(self@, ","@),
    {
        join_keys(&self.0, ",")
    }
}

/// Once a token has written no key, the rest of the text cannot mend it.
proof fn lemma_keys_lost(s: Seq<char>, n: int, m: int)
    requires
        0 <= n <= m <= s.len(),
        scan_keys(s, n).0 is None,
    ensures
        scan_keys(s, m).0 is None,
    decreases m - n,
{
    if n < m {
        lemma_keys_lost(s, n, m - 1);
    }
}

impl KeySequence {
    /// The chords in their written form, with an arrow between them.
    pub fn to_string(&self) -> (s: String)
        ensures
            s@ == joined(self@, " -> "@),
    {
        join_keys(&self.0, " -> ")
    }
}

impl KeyBindings {
    /// The characters that can be drawn: those of the dot commands
    /// bound while editing, globally, or in a named group.
    pub fn fg_chars(&self) -> (out: Vec<char>)
        ensures
            out@ == self@.fg_chars(),
    {
        let mut out: Vec<char> = Vec::new();
        push_dot_chars(&mut out, &self.main);
        match &self.global {
            Some(global) => {
                push_dot_chars(&mut out, global);
            },
            None => {},
        }
        let ghost before = out@;
        assert(before =~= dot_chars(self@.main) + (match self@.global {
            Some(g) => dot_chars(g),
            None => Seq::empty(),
        }));
        let mut i: usize = 0;
        while i < self.groups.len()
            invariant
                i <= self.groups.len(),
                out@ == before + groups_dot_chars(self@.groups.take(i as int)),
            decreases self.groups.len() - i,
        {
            let ghost upto = self@.groups.take(i as int + 1);
            assert(upto.drop_last() =~= self@.groups.take(i as int));
            assert(upto.last().1 == self.groups@[i as int].1@);
            push_dot_chars(&mut out, &self.groups[i].1);
            assert(out@ =~= before + groups_dot_chars(upto));
            i += 1;
        }
        assert(self@.groups.take(self.groups.len() as int) =~= self@.groups);
        out
    }
}

/// The character of the first background command among `entries`, from
/// index `i` on.
pub open spec fn first_background(entries: Seq<EntryView>, i: int) -> Option<char>
    decreases entries.len() - i,
{
    if i >= entries.len() {
        None
    } else {
        match entries[i].command {
            CommandView::Background(c) => Some(c),
            _ => first_background(entries, i + 1),
        }
    }
}

/// The character of the first background command in the named groups,
/// from group `i` on.
pub open spec fn groups_background(groups: Seq<(Seq<char>, Seq<EntryView>)>, i: int) -> Option<char>
    decreases groups.len() - i,
{
    if i >= groups.len() {
        None
    } else {
        match first_background(groups[i].1, 0) {
            Some(c) => Some(c),
            None => groups_background(groups, i + 1),
        }
    }
}

impl BindingsView {
    /// The character of an empty cell: that of the first background
    /// command bound while editing, globally, or in a named group, in
    /// that order; a space when there is none.
    pub open spec fn canvas_char(self) -> char {
        match first_background(self.main, 0) {
            Some(c) => c,
            None => match (match self.global {
                Some(g) => first_background(g, 0),
                None => None,
            }) {
                Some(c) => c,
                None => match groups_background(self.groups, 0) {
                    Some(c) => c,
                    None => ' ',
                },
            },
        }
    }
}

/// The character of the first background command of `group`.
fn background_of(group: &KeyBindingsGroup) -> (c: Option<char>)
    ensures
        c == first_background(group@, 0),
{
    let mut i: usize = 0;
    while i < group.entries.len()
        invariant
            i <= group.entries.len(),
            first_background(group@, 0) == first_background(group@, i as int),
        decreases group.entries.len() - i,
    {
        assert(group@[i as int] == group.entries@[i as int]@);
        match &group.entries[i].command {
            EditorCommand::Background(c) => {
                return Some(*c);
            },
            _ => {},
        }
        i += 1;
    }
    None
}

impl KeyBindings {
    /// The character of an empty cell: a cut leaves it behind, and a
    /// selection does not capture it. It is the character of the first
    /// background command bound while editing, globally, or in a named
    /// group, in that order; a space when there is none.
    #[verifier::loop_isolation(false)]
    pub fn canvas_char(&self) -> (c: char)
        ensures
            c == self@.canvas_char(),
    {
        match background_of(&self.main) {
            Some(c) => {
                return c;
            },
            None => {},
        }
        match &self.global {
            Some(global) => match background_of(global) {
                Some(c) => {
                    return c;
                },
                None => {},
            },
            None => {},
        }
        let mut i: usize = 0;
        while i < self.groups.len()
            invariant
                i <= self.groups.len(),
                groups_background(self@.groups, 0) == groups_background(self@.groups, i as int),
            decreases self.groups.len() - i,
        {
            assert(self@.groups[i as int].1 == self.groups@[i as int].1@);
            match background_of(&self.groups[i].1) {
                Some(c) => {
                    return c;
                },
                None => {},
            }
            i += 1;
        }
        ' '
    }
}

} // verus!
