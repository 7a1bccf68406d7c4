//! The `focus-or-spawn` section of the configuration.
//!
//! Each entry binds a key to an application: pressing the key focuses a window of the application,
//! or starts the application where it has none. An entry is read in two steps, because reading the
//! action in it is not done here: the first step looks at everything else, and the second one at
//! the action. Problems that do not stop the reading are reported by their place in the entry.
use vstd::prelude::*;

verus! {

/// A symbol on a keyboard.
#[derive(Debug, Clone, Copy, PartialEq, Eq, Structural)]
pub struct Keysym(pub u32);

/// What sets off a bind.
#[derive(Debug, Clone, Copy, PartialEq, Eq, Structural)]
pub enum Trigger {
    /// A key on the keyboard.
    Keysym(Keysym),
    /// A button, a wheel, or the like.
    Other,
}

/// What sets off a bind, and the modifiers that are held, one bit each.
#[derive(Debug, Clone, Copy, PartialEq, Eq, Structural)]
pub struct Key {
    /// What sets off the bind.
    pub trigger: Trigger,
    /// The modifiers.
    pub modifiers: u16,
}

/// What a bind does, as far as it matters here.
#[derive(Debug, Clone, PartialEq)]
pub enum Action {
    /// Starts a command with arguments.
    Spawn(Vec<String>),
    /// Starts a command in a shell.
    SpawnSh(String),
    /// Anything else.
    Other,
}

/// The entries of the section.
#[derive(Debug, Clone, PartialEq)]
pub struct FocusOrSpawn(pub Vec<FocusOrSpawnEntry>);

/// A key bound to an application.
#[derive(Debug, Clone, PartialEq)]
pub struct FocusOrSpawnEntry {
    /// The key.
    pub trigger: Keysym,
    /// The application.
    pub app_id: String,
    /// What starts the application.
    pub spawn: Option<Action>,
    /// Whether windows on all workspaces are gone through.
    pub cycle_all_workspaces: bool,
    /// Whether windows on all outputs are gone through.
    pub cycle_all_outputs: bool,
}

/// A scalar in the configuration.
#[derive(Debug)]
pub enum Literal {
    /// A string.
    Text(String),
    /// A boolean.
    Flag(bool),
    /// A number or null.
    Other,
}

/// A scalar with an optional type name.
#[derive(Debug)]
pub struct Value {
    /// Whether there is a type name.
    pub has_type_name: bool,
    /// The scalar.
    pub literal: Literal,
}

/// A named scalar of a node.
#[derive(Debug)]
pub struct Property {
    /// The name.
    pub name: String,
    /// The scalar.
    pub value: Value,
}

/// An entry as it was written.
#[derive(Debug)]
pub struct EntryNode {
    /// Whether there is a type name.
    pub has_type_name: bool,
    /// The number of arguments.
    pub arguments: usize,
    /// The name of the node read as a key, if it is one.
    pub key: Option<Key>,
    /// The properties.
    pub properties: Vec<Property>,
    /// The number of child nodes.
    pub children: usize,
}

/// A problem that does not stop the reading.
#[derive(Debug, Clone, Copy, PartialEq, Eq, Structural)]
pub enum Diagnostic {
    /// There is a type name.
    TypeName,
    /// There is an argument, at this index.
    Argument(usize),
    /// The property at this index has a type name.
    PropertyTypeName(usize),
    /// The property at this index should be a string.
    NotText(usize),
    /// The property at this index should be a boolean.
    NotFlag(usize),
    /// There is no property of that name.
    UnexpectedProperty(usize),
    /// There is one more child, at this index.
    ExtraChild(usize),
}

/// A problem that stops the reading.
#[derive(Debug, Clone, Copy, PartialEq, Eq, Structural)]
pub enum DecodeError {
    /// The name of the node is not a key.
    NotAKey,
    /// The key is not a plain one.
    KeyNotPlain,
    /// There is no `app-id`.
    MissingAppId,
    /// The action does not start a command.
    UnsupportedAction,
}

impl Diagnostic {
    /// What to tell the user, where that is the same for all entries.
    pub fn message(self) -> (message: Option<&'static str>)
        ensures
            match self {
                Diagnostic::TypeName => message is Some && message->0@
                    == "no type name expected for this node"@,
                Diagnostic::Argument(_) => message is Some && message->0@
                    == "no arguments expected for this node"@,
                Diagnostic::ExtraChild(_) => message is Some && message->0@
                    == "only one action is allowed per focus-or-spawn entry"@,
                _ => message is None,
            },
    {
        match self {
            Diagnostic::TypeName => Some("no type name expected for this node"),
            Diagnostic::Argument(_) => Some("no arguments expected for this node"),
            Diagnostic::ExtraChild(_) => Some(
                "only one action is allowed per focus-or-spawn entry",
            ),
            _ => None,
        }
    }
}

impl DecodeError {
    /// What to tell the user, where that is the same for all entries.
    pub fn message(self) -> (message: Option<&'static str>)
        ensures
            match self {
                DecodeError::NotAKey => message is None,
                DecodeError::KeyNotPlain => message is Some && message->0@
                    == "focus-or-spawn key must be a single keyboard key without modifiers"@,
                DecodeError::MissingAppId => message is Some && message->0@
                    == "missing required property `app-id`"@,
                DecodeError::UnsupportedAction => message is Some && message->0@
                    == "focus-or-spawn entries only support spawn or spawn-sh"@,
            },
    {
        match self {
            DecodeError::NotAKey => None,
            DecodeError::KeyNotPlain => Some(
                "focus-or-spawn key must be a single keyboard key without modifiers",
            ),
            DecodeError::MissingAppId => Some("missing required property `app-id`"),
            DecodeError::UnsupportedAction => Some(
                "focus-or-spawn entries only support spawn or spawn-sh",
            ),
        }
    }
}

/// What the properties say, and what is wrong with them.
pub ghost struct Scan {
    /// The application.
    pub app_id: Option<Seq<char>>,
    /// Whether windows on all workspaces are gone through.
    pub all_workspaces: bool,
    /// Whether windows on all outputs are gone through.
    pub all_outputs: bool,
    /// What is wrong.
    pub diagnostics: Seq<Diagnostic>,
}

/// The string of a scalar, or an empty one where it is something else.
pub open spec fn text_of(literal: Literal) -> Seq<char> {
    match literal {
        Literal::Text(text) => text@,
        _ => Seq::empty(),
    }
}

/// The boolean of a scalar, or `false` where it is something else.
pub open spec fn flag_of(literal: Literal) -> bool {
    match literal {
        Literal::Flag(flag) => flag,
        _ => false,
    }
}

/// What is wrong with a property that should be a string.
pub open spec fn text_diagnostics(value: Value, i: usize) -> Seq<Diagnostic> {
    (if value.has_type_name {
        seq![Diagnostic::PropertyTypeName(i)]
    } else {
        Seq::empty()
    }) + (if value.literal is Text {
        Seq::empty()
    } else {
        seq![Diagnostic::NotText(i)]
    })
}

/// What is wrong with a property that should be a boolean.
pub open spec fn flag_diagnostics(value: Value, i: usize) -> Seq<Diagnostic> {
    (if value.has_type_name {
        seq![Diagnostic::PropertyTypeName(i)]
    } else {
        Seq::empty()
    }) + (if value.literal is Flag {
        Seq::empty()
    } else {
        seq![Diagnostic::NotFlag(i)]
    })
}

/// What the properties say. Of two with the same name the later one counts.
pub open spec fn scan(properties: Seq<Property>) -> Scan
    decreases properties.len(),
{
    if properties.len() == 0 {
        Scan {
            app_id: None,
            all_workspaces: false,
            all_outputs: false,
            diagnostics: Seq::empty(),
        }
    } else {
        let before = scan(properties.drop_last());
        let i = (properties.len() - 1) as usize;
        let name = properties.last().name@;
        let value = properties.last().value;
        if name == "app-id"@ {
            Scan {
                app_id: Some(text_of(value.literal)),
                diagnostics: before.diagnostics + text_diagnostics(value, i),
                ..before
            }
        } else if name == "all-workspaces"@ {
            Scan {
                all_workspaces: flag_of(value.literal),
                diagnostics: before.diagnostics + flag_diagnostics(value, i),
                ..before
            }
        } else if name == "all-outputs"@ {
            Scan {
                all_outputs: flag_of(value.literal),
                diagnostics: before.diagnostics + flag_diagnostics(value, i),
                ..before
            }
        } else {
            Scan {
                diagnostics: before.diagnostics.push(Diagnostic::UnexpectedProperty(i)),
                ..before
            }
        }
    }
}

/// A key without modifiers.
pub open spec fn plain_key(key: Option<Key>) -> Result<Keysym, DecodeError> {
    match key {
        Some(Key { trigger: Trigger::Keysym(keysym), modifiers }) if modifiers == 0 => Ok(keysym),
        Some(_) => Err(DecodeError::KeyNotPlain),
        None => Err(DecodeError::NotAKey),
    }
}

/// What is wrong with the node before its key is looked at.
pub open spec fn outer_diagnostics(node: EntryNode) -> Seq<Diagnostic> {
    (if node.has_type_name {
        seq![Diagnostic::TypeName]
    } else {
        Seq::empty()
    }) + Seq::new(node.arguments as nat, |i: int| Diagnostic::Argument(i as usize))
}

/// The children after the first one.
pub open spec fn extra_children(children: usize) -> Seq<Diagnostic> {
    Seq::new(
        if children > 1 {
            (children - 1) as nat
        } else {
            0
        },
        |i: int| Diagnostic::ExtraChild((i + 1) as usize),
    )
}

/// Everything that is wrong with the node up to where the reading stops, but for its action.
pub open spec fn diagnostics_of(node: EntryNode) -> Seq<Diagnostic> {
    let outer = outer_diagnostics(node);
    if plain_key(node.key) is Err {
        outer
    } else {
        let inner = scan(node.properties@);
        if inner.app_id is None {
            outer + inner.diagnostics
        } else {
            outer + inner.diagnostics + extra_children(node.children)
        }
    }
}

/// `head` is the entry without its action, or why there is none.
pub open spec fn is_head(node: EntryNode, head: Result<FocusOrSpawnEntry, DecodeError>) -> bool {
    match plain_key(node.key) {
        Err(err) => head == Err::<FocusOrSpawnEntry, _>(err),
        Ok(trigger) => {
            let inner = scan(node.properties@);
            match inner.app_id {
                None => head == Err::<FocusOrSpawnEntry, _>(DecodeError::MissingAppId),
                Some(app_id) => {
                    &&& head is Ok
                    &&& head->Ok_0.trigger == trigger
                    &&& head->Ok_0.app_id@ == app_id
                    &&& head->Ok_0.spawn is None
                    &&& head->Ok_0.cycle_all_workspaces == inner.all_workspaces
                    &&& head->Ok_0.cycle_all_outputs == inner.all_outputs
                },
            }
        },
    }
}

impl Literal {
    /// The string, or an empty one.
    fn text(&self) -> (text: String)
        ensures
            text@ == text_of(*self),
    {
        match self {
            Literal::Text(text) => text.clone(),
            _ => String::new(),
        }
    }

    /// The boolean, or `false`.
    fn flag(&self) -> (flag: bool)
        ensures
            flag == flag_of(*self),
    {
        match self {
            Literal::Flag(flag) => *flag,
            _ => false,
        }
    }
}

fn report_type_name(value: &Value, i: usize, diagnostics: &mut Vec<Diagnostic>)
    ensures
        final(diagnostics)@ == old(diagnostics)@ + (if value.has_type_name {
            seq![Diagnostic::PropertyTypeName(i)]
        } else {
            Seq::empty()
        }),
{
    if value.has_type_name {
        diagnostics.push(Diagnostic::PropertyTypeName(i));
    }
}

fn decode_text(value: &Value, i: usize, diagnostics: &mut Vec<Diagnostic>) -> (text: String)
    ensures
        text@ == text_of(value.literal),
        final(diagnostics)@ == old(diagnostics)@ + text_diagnostics(*value, i),
{
    report_type_name(value, i, diagnostics);
    if let Literal::Text(_) = &value.literal {
    } else {
        diagnostics.push(Diagnostic::NotText(i));
    }
    assert(diagnostics@ =~= old(diagnostics)@ + text_diagnostics(*value, i));
    value.literal.text()
}

fn decode_flag(value: &Value, i: usize, diagnostics: &mut Vec<Diagnostic>) -> (flag: bool)
    ensures
        flag == flag_of(value.literal),
        final(diagnostics)@ == old(diagnostics)@ + flag_diagnostics(*value, i),
{
    report_type_name(value, i, diagnostics);
    if let Literal::Flag(_) = &value.literal {
    } else {
        diagnostics.push(Diagnostic::NotFlag(i));
    }
    assert(diagnostics@ =~= old(diagnostics)@ + flag_diagnostics(*value, i));
    value.literal.flag()
}

/// What the properties say.
struct Found {
    app_id: Option<String>,
    all_workspaces: bool,
    all_outputs: bool,
}

fn scan_properties(properties: &Vec<Property>, diagnostics: &mut Vec<Diagnostic>) -> (found: Found)
    ensures
        ({
            let inner = scan(properties@);
            &&& found.all_workspaces == inner.all_workspaces
            &&& found.all_outputs == inner.all_outputs
            &&& found.app_id is Some == inner.app_id is Some
            &&& found.app_id matches Some(app_id) ==> app_id@ == inner.app_id->0
            &&& final(diagnostics)@ == old(diagnostics)@ + inner.diagnostics
        }),
{
    let ghost all = properties@;
    let mut app_id: Option<String> = None;
    let mut all_workspaces = false;
    let mut all_outputs = false;
    let mut i: usize = 0;
    assert(all.take(0) =~= Seq::empty());
    assert(diagnostics@ =~= old(diagnostics)@ + scan(all.take(0)).diagnostics);
    while i < properties.len()
        invariant
            i <= properties.len(),
            properties@ == all,
            ({
                let inner = scan(all.take(i as int));
                &&& all_workspaces == inner.all_workspaces
                &&& all_outputs == inner.all_outputs
                &&& app_id is Some == inner.app_id is Some
                &&& app_id matches Some(app_id) ==> app_id@ == inner.app_id->0
                &&& diagnostics@ == old(diagnostics)@ + inner.diagnostics
            }),
        decreases properties.len() - i,
    {
        proof {
            let next = all.take(i + 1);
            assert(next.drop_last() =~= all.take(i as int));
            assert(next.last() == all[i as int]);
        }
        let property = &properties[i];
        if property.name == "app-id".to_owned() {
            app_id = Some(decode_text(&property.value, i, diagnostics));
        } else if property.name == "all-workspaces".to_owned() {
            all_workspaces = decode_flag(&property.value, i, diagnostics);
        } else if property.name == "all-outputs".to_owned() {
            all_outputs = decode_flag(&property.value, i, diagnostics);
        } else {
            diagnostics.push(Diagnostic::UnexpectedProperty(i));
        }
        assert(diagnostics@ =~= old(diagnostics)@ + scan(all.take(i + 1)).diagnostics);
        i += 1;
    }
    assert(all.take(i as int) =~= all);
    Found { app_id, all_workspaces, all_outputs }
}

impl FocusOrSpawnEntry {
    /// Reads everything of an entry but its action.
    ///
    /// Returns what is wrong with it, in the order in which it is written, and the entry without an
    /// action.
    pub fn decode_head(node: &EntryNode) -> (result: (
        Vec<Diagnostic>,
        Result<FocusOrSpawnEntry, DecodeError>,
    ))
        ensures
            result.0@ == diagnostics_of(*node),
            is_head(*node, result.1),
    {
        let mut diagnostics: Vec<Diagnostic> = Vec::new();
        if node.has_type_name {
            diagnostics.push(Diagnostic::TypeName);
        }
        let ghost first = diagnostics@;
        let mut i: usize = 0;
        while i < node.arguments
            invariant
                i <= node.arguments,
                diagnostics@ == first + Seq::new(i as nat, |i: int| Diagnostic::Argument(i as usize)),
            decreases node.arguments - i,
        {
            diagnostics.push(Diagnostic::Argument(i));
            i += 1;
            assert(diagnostics@ =~= first + Seq::new(
                i as nat,
                |i: int| Diagnostic::Argument(i as usize),
            ));
        }
        assert(diagnostics@ =~= outer_diagnostics(*node));

        let trigger = match node.key {
            Some(Key { trigger: Trigger::Keysym(keysym), modifiers }) if modifiers == 0 => keysym,
            Some(_) => return (diagnostics, Err(DecodeError::KeyNotPlain)),
            None => return (diagnostics, Err(DecodeError::NotAKey)),
        };

        let found = scan_properties(&node.properties, &mut diagnostics);
        let app_id = match found.app_id {
            Some(app_id) => app_id,
            None => return (diagnostics, Err(DecodeError::MissingAppId)),
        };

        let ghost inner = diagnostics@;
        let mut i: usize = 1;
        while i < node.children
            invariant
                1 <= i,
                node.children > 1 ==> i <= node.children,
                node.children <= 1 ==> i == 1,
                diagnostics@ == inner + Seq::new(
                    (i - 1) as nat,
                    |i: int| Diagnostic::ExtraChild((i + 1) as usize),
                ),
            decreases node.children - i,
        {
            diagnostics.push(Diagnostic::ExtraChild(i));
            i += 1;
            assert(diagnostics@ =~= inner + Seq::new(
                (i - 1) as nat,
                |i: int| Diagnostic::ExtraChild((i + 1) as usize),
            ));
        }
        assert(diagnostics@ =~= inner + extra_children(node.children));
        (
            diagnostics,
            Ok(
                FocusOrSpawnEntry {
                    trigger,
                    app_id,
                    spawn: None,
                    cycle_all_workspaces: found.all_workspaces,
                    cycle_all_outputs: found.all_outputs,
                },
            ),
        )
    }

    /// Puts the action into an entry. Only actions that start a command are taken.
    pub fn decode_action(self, action: Option<Action>) -> (result: Result<
        FocusOrSpawnEntry,
        DecodeError,
    >)
        ensures
            is_action_decoded(self, action, result),
    {
        match action {
            Some(Action::Other) => Err(DecodeError::UnsupportedAction),
            action => Ok(
                FocusOrSpawnEntry {
                    trigger: self.trigger,
                    app_id: self.app_id,
                    spawn: action,
                    cycle_all_workspaces: self.cycle_all_workspaces,
                    cycle_all_outputs: self.cycle_all_outputs,
                },
            ),
        }
    }
}

/// `result` is the entry with its action, or tells that the action is none that an entry has.
pub open spec fn is_action_decoded(
    entry: FocusOrSpawnEntry,
    action: Option<Action>,
    result: Result<FocusOrSpawnEntry, DecodeError>,
) -> bool {
    match action {
        Some(Action::Other) => result == Err::<FocusOrSpawnEntry, _>(
            DecodeError::UnsupportedAction,
        ),
        _ => result == Ok::<_, DecodeError>(FocusOrSpawnEntry { spawn: action, ..entry }),
    }
}

/// An entry with the key is among the entries.
pub open spec fn has_trigger(entries: Seq<FocusOrSpawnEntry>, trigger: Keysym) -> bool {
    exists|i: int| 0 <= i < entries.len() && (#[trigger] entries[i]).trigger == trigger
}

/// No key is bound twice.
pub open spec fn distinct_triggers(entries: Seq<FocusOrSpawnEntry>) -> bool {
    forall|i: int, j: int|
        0 <= i < j < entries.len() ==> (#[trigger] entries[i]).trigger != (
        #[trigger] entries[j]).trigger
}

/// The entries that count: of several with the same key the first one.
pub open spec fn first_of_each(entries: Seq<FocusOrSpawnEntry>) -> Seq<FocusOrSpawnEntry>
    decreases entries.len(),
{
    if entries.len() == 0 {
        entries
    } else {
        let kept = first_of_each(entries.drop_last());
        if has_trigger(kept, entries.last().trigger) {
            kept
        } else {
            kept.push(entries.last())
        }
    }
}

/// `found` is the first entry with the key.
pub open spec fn is_bound(
    entries: Seq<FocusOrSpawnEntry>,
    trigger: Keysym,
    found: Option<FocusOrSpawnEntry>,
) -> bool {
    match found {
        Some(entry) => exists|i: int|
            0 <= i < entries.len() && entry == #[trigger] entries[i] && entry.trigger == trigger
                && forall|j: int| 0 <= j < i ==> (#[trigger] entries[j]).trigger != trigger,
        None => !has_trigger(entries, trigger),
    }
}

/// What adding an entry does: it comes last, unless its key is bound already.
pub open spec fn is_added(
    before: Seq<FocusOrSpawnEntry>,
    entry: FocusOrSpawnEntry,
    after: Seq<FocusOrSpawnEntry>,
    added: bool,
) -> bool {
    &&& added == !has_trigger(before, entry.trigger)
    &&& after == (if added {
        before.push(entry)
    } else {
        before
    })
}

/// What collecting entries gives: those that count, and the places of the others in order.
pub open spec fn is_collected(
    entries: Seq<FocusOrSpawnEntry>,
    kept: Seq<FocusOrSpawnEntry>,
    duplicates: Seq<usize>,
) -> bool {
    &&& kept == first_of_each(entries)
    &&& distinct_triggers(kept)
    &&& forall|i: usize|
        i < entries.len() ==> (#[trigger] duplicates.contains(i) <==> has_trigger(
            first_of_each(entries.take(i as int)),
            entries[i as int].trigger,
        ))
    &&& forall|k: int, l: int|
        0 <= k < l < duplicates.len() ==> #[trigger] duplicates[k] < #[trigger] duplicates[l]
    &&& forall|k: int| 0 <= k < duplicates.len() ==> #[trigger] duplicates[k] < entries.len()
}

impl Default for FocusOrSpawn {
    /// No entries.
    fn default() -> (section: FocusOrSpawn)
        ensures
            section.0@.len() == 0,
    {
        FocusOrSpawn::new()
    }
}

impl FocusOrSpawn {
    /// No entries.
    pub fn new() -> (section: FocusOrSpawn)
        ensures
            section.0@.len() == 0,
    {
        FocusOrSpawn(Vec::new())
    }

    /// The entry bound to a key.
    pub fn find_by_trigger(&self, trigger: Keysym) -> (found: Option<&FocusOrSpawnEntry>)
        ensures
            is_bound(
                self.0@,
                trigger,
                match found {
                    Some(entry) => Some(*entry),
                    None => None,
                },
            ),
    {
        let mut i: usize = 0;
        while i < self.0.len()
            invariant
                i <= self.0.len(),
                forall|j: int| 0 <= j < i ==> (#[trigger] self.0@[j]).trigger != trigger,
            decreases self.0.len() - i,
        {
            if self.0[i].trigger == trigger {
                return Some(&self.0[i]);
            }
            i += 1;
        }
        None
    }

    /// Adds the next entry of the section, unless its key is bound already. Tells whether it was
    /// added.
    pub fn add_entry(&mut self, entry: FocusOrSpawnEntry) -> (added: bool)
        ensures
            is_added(old(self).0@, entry, final(self).0@, added),
            distinct_triggers(old(self).0@) ==> distinct_triggers(final(self).0@),
    {
        if self.find_by_trigger(entry.trigger).is_some() {
            return false;
        }
        self.0.push(entry);
        true
    }

    /// The section with these entries. Of several with the same key the first one is kept, and the
    /// indices of the others are returned.
    pub fn collect(entries: Vec<FocusOrSpawnEntry>) -> (result: (FocusOrSpawn, Vec<usize>))
        ensures
            is_collected(entries@, result.0.0@, result.1@),
    {
        let ghost all = entries@;
        let n: usize = entries.len();
        let mut section = FocusOrSpawn::new();
        let mut duplicates: Vec<usize> = Vec::new();
        let mut i: usize = 0;
        assert(all.take(0) =~= Seq::empty());
        for entry in it: entries.into_iter()
            invariant
                it.seq() == all,
                i == it.index(),
                all.len() == n,
                forall|k: int, l: int|
                    0 <= k < l < duplicates@.len() ==> #[trigger] duplicates@[k]
                        < #[trigger] duplicates@[l],
                section.0@ == first_of_each(all.take(i as int)),
                distinct_triggers(section.0@),
                forall|k: int| 0 <= k < duplicates@.len() ==> #[trigger] duplicates@[k] < i,
                forall|j: usize|
                    j < i ==> (#[trigger] duplicates@.contains(j) <==> has_trigger(
                        first_of_each(all.take(j as int)),
                        all[j as int].trigger,
                    )),
        {
            proof {
                let next = all.take(i + 1);
                assert(next.drop_last() =~= all.take(i as int));
                assert(next.last() == all[i as int]);
            }
            let ghost before = duplicates@;
            let added = section.add_entry(entry);
            if !added {
                duplicates.push(i);
            }
            proof {
                assert forall|j: usize| j < i implies #[trigger] duplicates@.contains(j)
                    == before.contains(j) by {
                    if before.contains(j) {
                        let k = before.index_of(j);
                        assert(duplicates@[k] == j);
                    }
                    if duplicates@.contains(j) {
                        let k = duplicates@.index_of(j);
                        assert(before[k] == j);
                    }
                }
                if !added {
                    assert(duplicates@[before.len() as int] == i);
                } else {
                    assert(!duplicates@.contains(i));
                }
            }
            i += 1;
        }
        assert(all.take(i as int) =~= all);
        (section, duplicates)
    }
}

/// A key that is bound anywhere in the section is bound in what is kept of it, and to the first of
/// its entries.
pub proof fn first_entry_wins(entries: Seq<FocusOrSpawnEntry>, i: int)
    requires
        0 <= i < entries.len(),
        forall|j: int| 0 <= j < i ==> (#[trigger] entries[j]).trigger != entries[i].trigger,
    ensures
        first_of_each(entries).contains(entries[i]),
        distinct_triggers(first_of_each(entries)),
    decreases entries.len(),
{
    let rest = entries.drop_last();
    let kept = first_of_each(rest);
    only_given_entries_are_kept(rest);
    keys_stay_distinct(entries);
    if i < rest.len() {
        assert forall|j: int| 0 <= j < i implies (#[trigger] rest[j]).trigger != rest[i].trigger by {
            assert(rest[j] == entries[j]);
        }
        first_entry_wins(rest, i);
        let k = kept.index_of(entries[i]);
        assert(first_of_each(entries)[k] == entries[i]);
    } else {
        if has_trigger(kept, entries[i].trigger) {
            let k = choose|k: int| 0 <= k < kept.len() && (#[trigger] kept[k]).trigger
                == entries[i].trigger;
            assert(rest.contains(kept[k]));
            let j = rest.index_of(kept[k]);
            assert(entries[j] == rest[j]);
            assert(false);
        }
        assert(first_of_each(entries)[kept.len() as int] == entries[i]);
    }
}

/// What is kept was given.
proof fn only_given_entries_are_kept(entries: Seq<FocusOrSpawnEntry>)
    ensures
        forall|k: int|
            0 <= k < first_of_each(entries).len() ==> entries.contains(
                #[trigger] first_of_each(entries)[k],
            ),
    decreases entries.len(),
{
    if entries.len() > 0 {
        let rest = entries.drop_last();
        only_given_entries_are_kept(rest);
        let kept = first_of_each(rest);
        assert forall|k: int| 0 <= k < first_of_each(entries).len() implies entries.contains(
            #[trigger] first_of_each(entries)[k],
        ) by {
            if k < kept.len() {
                assert(rest.contains(kept[k]));
                let j = rest.index_of(kept[k]);
                assert(entries[j] == kept[k]);
            } else {
                assert(entries[entries.len() - 1] == first_of_each(entries)[k]);
            }
        }
    }
}

/// No key is kept twice.
proof fn keys_stay_distinct(entries: Seq<FocusOrSpawnEntry>)
    ensures
        distinct_triggers(first_of_each(entries)),
    decreases entries.len(),
{
    if entries.len() > 0 {
        keys_stay_distinct(entries.drop_last());
    }
}

} // verus!
