//! Executors: what is done with the manifest address once it is known.

use crate::error::Failure;
use crate::substitutions::Substitutions;
use crate::template::{rendered, Template};
use crate::text::{same_text, texts};
use vstd::prelude::*;

verus! {

/// One entry of the configuration file: the name of an executor and the
/// templates of its command, program first.
#[derive(Debug)]
pub struct ConfigEntry {
    pub name: String,
    pub command: Vec<String>,
}

impl View for ConfigEntry {
    type V = (Seq<char>, Seq<Seq<char>>);

    open spec fn view(&self) -> (Seq<char>, Seq<Seq<char>>) {
        (self.name@, texts(self.command@))
    }
}

/// The views of a sequence of entries.
pub open spec fn entries_of(entries: Seq<ConfigEntry>) -> Seq<(Seq<char>, Seq<Seq<char>>)> {
    Seq::new(entries.len(), |i: int| entries[i]@)
}

/// `serde_yaml::Error`, carried from the decoder to the caller as it is.
#[verifier::external_type_specification]
#[verifier::external_body]
pub struct ExYamlError(serde_yaml::Error);

/// What `serde_yaml::from_slice` makes of `bytes` when it is asked for a map
/// from strings to lists of strings: `None` where it refuses them, else the
/// entries of the map in the order of their names.
pub uninterp spec fn yaml_commands(bytes: Seq<u8>) -> Option<Seq<(Seq<char>, Seq<Seq<char>>)>>;

/// Calls `serde_yaml::from_slice` for a `BTreeMap<String, Vec<String>>` and
/// hands its entries out in the map's own order. The contract only names the
/// outcome: it is `yaml_commands` of the bytes.
#[verifier::external_body]
fn decode_commands(bytes: &[u8]) -> (r: Result<Vec<ConfigEntry>, serde_yaml::Error>)
    ensures
        match r {
            Ok(entries) => yaml_commands(bytes@) == Some(entries_of(entries@)),
            Err(_) => yaml_commands(bytes@).is_none(),
        },
{
    let table: std::collections::BTreeMap<String, Vec<String>> = serde_yaml::from_slice(bytes)?;
    Ok(table.into_iter().map(|(name, command)| ConfigEntry { name, command }).collect())
}

/// The templates rendered one by one; `None` if one of them does not render.
pub open spec fn rendered_all(templates: Seq<Seq<char>>, values: Map<Seq<char>, Seq<char>>) -> Option<
    Seq<Seq<char>>,
> {
    if forall|i: int| 0 <= i < templates.len() ==> rendered(#[trigger] templates[i], values) is Some {
        Some(Seq::new(templates.len(), |i: int| rendered(templates[i], values).unwrap()))
    } else {
        None
    }
}

/// The view of a command line or a failure.
pub open spec fn command_line_of(r: Result<Vec<String>, Failure>) -> Option<Seq<Seq<char>>> {
    match r {
        Ok(line) => Some(texts(line@)),
        Err(_) => None,
    }
}

/// A command: the template of a program and those of its arguments.
#[derive(Debug)]
pub struct CommandExecutor {
    templates: Vec<Template>,
}

impl View for CommandExecutor {
    type V = Seq<Seq<char>>;

    closed spec fn view(&self) -> Seq<Seq<char>> {
        Seq::new(self.templates@.len(), |i: int| self.templates@[i]@)
    }
}

impl CommandExecutor {
    #[verifier::type_invariant]
    spec fn has_program(&self) -> bool {
        self.templates@.len() > 0
    }

    /// The command with the templates `command`, each with its placeholders
    /// found. A command without a program is refused with `InvalidCommand`.
    #[verifier::loop_isolation(false)]
    pub fn new(command: &Vec<String>) -> (r: Result<Self, Failure>)
        ensures
            match r {
                Ok(executor) => command@.len() > 0 && executor@ == texts(command@),
                Err(e) => command@.len() == 0 && e == Failure::InvalidCommand,
            },
    {
        if command.len() == 0 {
            return Err(Failure::InvalidCommand);
        }
        let mut templates: Vec<Template> = Vec::new();
        let mut i: usize = 0;
        while i < command.len()
            invariant
                i <= command.len(),
                templates@.len() == i,
                forall|j: int| 0 <= j < i ==> (#[trigger] templates@[j])@ == command@[j]@,
            decreases command.len() - i,
        {
            templates.push(Template::new(command[i].as_str()));
            i += 1;
        }
        let executor = CommandExecutor { templates };
        assert(executor@ =~= texts(command@));
        Ok(executor)
    }

    /// The program and its arguments, each template rendered with `values`.
    /// Fails with `TemplateRenderError` if a template refers to a name
    /// without a value. A command line has at least its program.
    #[verifier::loop_isolation(false)]
    pub fn command_line(&self, values: &Substitutions) -> (r: Result<Vec<String>, Failure>)
        ensures
            command_line_of(r) == rendered_all(self@, values@),
            r matches Err(e) ==> e == Failure::TemplateRenderError,
            self@.len() > 0,
    {
        proof {
            use_type_invariant(self);
        }
        let mut line: Vec<String> = Vec::new();
        let mut i: usize = 0;
        while i < self.templates.len()
            invariant
                i <= self.templates.len(),
                line@.len() == i,
                forall|j: int|
                    0 <= j < i ==> rendered(#[trigger] self@[j], values@) == Some(line@[j]@),
            decreases self.templates.len() - i,
        {
            match self.templates[i].render(values) {
                Ok(s) => {
                    line.push(s);
                },
                Err(_) => {
                    assert(rendered(self@[i as int], values@) is None);
                    return Err(Failure::TemplateRenderError);
                },
            }
            i += 1;
        }
        assert(texts(line@) =~= rendered_all(self@, values@).unwrap());
        Ok(line)
    }
}

/// What is to be done with the manifest address.
#[derive(Debug)]
pub enum Action {
    /// Write the text to standard output.
    Print(String),
    /// Start the program with the arguments and wait for it to end.
    Run { program: String, arguments: Vec<String> },
}

/// An `Action` as mathematical values.
pub enum ActionView {
    Print(Seq<char>),
    Run { program: Seq<char>, arguments: Seq<Seq<char>> },
}

impl View for Action {
    type V = ActionView;

    open spec fn view(&self) -> ActionView {
        match self {
            Action::Print(text) => ActionView::Print(text@),
            Action::Run { program, arguments } => ActionView::Run {
                program: program@,
                arguments: texts(arguments@),
            },
        }
    }
}

/// The view of an action or a failure.
pub open spec fn action_of(r: Result<Action, Failure>) -> Result<ActionView, Failure> {
    match r {
        Ok(action) => Ok(action@),
        Err(e) => Err(e),
    }
}

/// Either a configured command or the printing of the address.
#[derive(Debug)]
pub enum Executor {
    Command(CommandExecutor),
    Print,
}

/// An `Executor` as mathematical values.
pub enum ExecutorView {
    Command(Seq<Seq<char>>),
    Print,
}

impl View for Executor {
    type V = ExecutorView;

    open spec fn view(&self) -> ExecutorView {
        match self {
            Executor::Command(command) => ExecutorView::Command(command@),
            Executor::Print => ExecutorView::Print,
        }
    }
}

impl From<CommandExecutor> for Executor {
    fn from(cmd: CommandExecutor) -> (r: Self) {
        Executor::Command(cmd)
    }
}

impl vstd::std_specs::convert::FromSpecImpl<CommandExecutor> for Executor {
    open spec fn obeys_from_spec() -> bool {
        true
    }

    open spec fn from_spec(v: CommandExecutor) -> Self {
        Executor::Command(v)
    }
}

/// What an executor does with `values`: printing writes the value of `url`;
/// a command runs its first rendered template with the others as arguments,
/// and fails if a template does not render.
pub open spec fn planned(executor: ExecutorView, values: Map<Seq<char>, Seq<char>>) -> Result<
    ActionView,
    Failure,
> {
    match executor {
        ExecutorView::Print => Ok(ActionView::Print(values["url"@])),
        ExecutorView::Command(templates) => match rendered_all(templates, values) {
            Some(line) => Ok(ActionView::Run { program: line[0], arguments: line.skip(1) }),
            None => Err(Failure::TemplateRenderError),
        },
    }
}

impl Executor {
    /// What this executor does with `values`. To print, `url` must have a
    /// value.
    pub fn action(&self, values: &Substitutions) -> (r: Result<Action, Failure>)
        requires
            self is Print ==> values@.contains_key("url"@),
        ensures
            action_of(r) == planned(self@, values@),
    {
        match self {
            Executor::Print => match values.get("url") {
                Some(url) => Ok(Action::Print(url.clone())),
                None => Err(Failure::TemplateRenderError),
            },
            Executor::Command(command) => match command.command_line(values) {
                Ok(line) => {
                    let mut arguments = line;
                    let ghost all = texts(arguments@);
                    let program = arguments.remove(0);
                    assert(texts(arguments@) =~= all.skip(1));
                    Ok(Action::Run { program, arguments })
                },
                Err(_) => Err(Failure::TemplateRenderError),
            },
        }
    }
}

/// Some entry has no template at all.
pub open spec fn has_empty_command(entries: Seq<(Seq<char>, Seq<Seq<char>>)>) -> bool {
    exists|i: int| 0 <= i < entries.len() && (#[trigger] entries[i]).1.len() == 0
}

/// The mapping from name to command that a sequence of entries stands for:
/// of two entries with one name the later one counts.
pub open spec fn commands_of(entries: Seq<(Seq<char>, Seq<Seq<char>>)>) -> Map<
    Seq<char>,
    Seq<Seq<char>>,
>
    decreases entries.len(),
{
    if entries.len() == 0 {
        Map::empty()
    } else {
        commands_of(entries.drop_last()).insert(entries.last().0, entries.last().1)
    }
}

/// The executors that a decoded configuration file defines: a file that was
/// refused is a `ConfigParseError`, a command without a program an
/// `InvalidCommand`.
pub open spec fn table_of(decoded: Option<Seq<(Seq<char>, Seq<Seq<char>>)>>) -> Result<
    Map<Seq<char>, Seq<Seq<char>>>,
    Failure,
> {
    match decoded {
        Some(entries) => if has_empty_command(entries) {
            Err(Failure::InvalidCommand)
        } else {
            Ok(commands_of(entries))
        },
        None => Err(Failure::ConfigParseError),
    }
}

/// A configuration that gives some executor no template at all is refused as
/// a whole, whatever else it holds.
pub proof fn lemma_empty_command_is_invalid(entries: Seq<(Seq<char>, Seq<Seq<char>>)>, i: int)
    requires
        0 <= i < entries.len(),
        entries[i].1.len() == 0,
    ensures
        table_of(Some(entries)) == Err::<Map<Seq<char>, Seq<Seq<char>>>, Failure>(
            Failure::InvalidCommand,
        ),
{
}

/// No name stands at two places of `s`.
spec fn distinct_names(s: Seq<(Seq<char>, Seq<Seq<char>>)>) -> bool {
    forall|i: int, j: int| 0 <= i < j < s.len() ==> (#[trigger] s[i]).0 != (#[trigger] s[j]).0
}

/// Some place of `s` holds the name `name`.
spec fn has_name(s: Seq<(Seq<char>, Seq<Seq<char>>)>, name: Seq<char>) -> bool {
    exists|i: int| 0 <= i < s.len() && (#[trigger] s[i]).0 == name
}

/// A place of `s` that holds the name `name`.
spec fn place_of_name(s: Seq<(Seq<char>, Seq<Seq<char>>)>, name: Seq<char>) -> int {
    choose|i: int| 0 <= i < s.len() && (#[trigger] s[i]).0 == name
}

/// The mapping from name to command that the places of `s` stand for.
spec fn named_map(s: Seq<(Seq<char>, Seq<Seq<char>>)>) -> Map<Seq<char>, Seq<Seq<char>>> {
    Map::new(|name: Seq<char>| has_name(s, name), |name: Seq<char>| s[place_of_name(s, name)].1)
}

/// Among distinct names each stands at its own place only.
proof fn lemma_name_stands_once(s: Seq<(Seq<char>, Seq<Seq<char>>)>, i: int)
    requires
        distinct_names(s),
        0 <= i < s.len(),
    ensures
        has_name(s, s[i].0),
        place_of_name(s, s[i].0) == i,
{
    let p = place_of_name(s, s[i].0);
    if p < i {
        assert(s[p].0 != s[i].0);
    } else if i < p {
        assert(s[i].0 != s[p].0);
    }
}

/// Adding a name that is not there adds it to the mapping.
proof fn lemma_named_map_after_push(s: Seq<(Seq<char>, Seq<Seq<char>>)>, e: (Seq<char>, Seq<Seq<char>>))
    requires
        distinct_names(s),
        !has_name(s, e.0),
    ensures
        distinct_names(s.push(e)),
        named_map(s.push(e)) == named_map(s).insert(e.0, e.1),
{
    let t = s.push(e);
    assert forall|i: int, j: int| 0 <= i < j < t.len() implies (#[trigger] t[i]).0 != (
    #[trigger] t[j]).0 by {
        if j < s.len() {
            assert(s[i].0 != s[j].0);
        } else {
            assert(s[i] == t[i]);
        }
    }
    assert forall|name: Seq<char>| has_name(t, name) <==> (name == e.0 || has_name(s, name)) by {
        if has_name(t, name) {
            let i = place_of_name(t, name);
            if i < s.len() {
                assert(s[i].0 == name);
            }
        }
        if name == e.0 {
            assert(t[s.len() as int].0 == name);
        }
        if has_name(s, name) {
            let i = place_of_name(s, name);
            assert(t[i].0 == name);
        }
    }
    assert forall|name: Seq<char>| has_name(t, name) implies t[place_of_name(t, name)].1 == (if name
        == e.0 {
        e.1
    } else {
        s[place_of_name(s, name)].1
    }) by {
        let i = place_of_name(t, name);
        lemma_name_stands_once(t, i);
        if name == e.0 {
            lemma_name_stands_once(t, s.len() as int);
        } else {
            let k = place_of_name(s, name);
            lemma_name_stands_once(s, k);
            lemma_name_stands_once(t, k);
        }
    }
    assert(named_map(t) =~= named_map(s).insert(e.0, e.1));
}

/// Replacing the command of a name that is there replaces it in the mapping.
proof fn lemma_named_map_after_update(
    s: Seq<(Seq<char>, Seq<Seq<char>>)>,
    p: int,
    e: (Seq<char>, Seq<Seq<char>>),
)
    requires
        distinct_names(s),
        0 <= p < s.len(),
        s[p].0 == e.0,
    ensures
        distinct_names(s.update(p, e)),
        named_map(s.update(p, e)) == named_map(s).insert(e.0, e.1),
{
    let t = s.update(p, e);
    assert forall|i: int, j: int| 0 <= i < j < t.len() implies (#[trigger] t[i]).0 != (
    #[trigger] t[j]).0 by {
        assert(s[i].0 != s[j].0);
    }
    assert forall|name: Seq<char>| has_name(t, name) <==> (name == e.0 || has_name(s, name)) by {
        if has_name(t, name) {
            let i = place_of_name(t, name);
            assert(s[i].0 == name);
        }
        if name == e.0 {
            assert(t[p].0 == name);
        }
        if has_name(s, name) {
            let i = place_of_name(s, name);
            assert(t[i].0 == name);
        }
    }
    assert forall|name: Seq<char>| has_name(t, name) implies t[place_of_name(t, name)].1 == (if name
        == e.0 {
        e.1
    } else {
        s[place_of_name(s, name)].1
    }) by {
        let i = place_of_name(t, name);
        lemma_name_stands_once(t, i);
        if name == e.0 {
            lemma_name_stands_once(t, p);
        } else {
            let k = place_of_name(s, name);
            lemma_name_stands_once(s, k);
            lemma_name_stands_once(t, k);
        }
    }
    assert(named_map(t) =~= named_map(s).insert(e.0, e.1));
}

/// Distinct names stand for a mapping with as many names.
proof fn lemma_named_count(s: Seq<(Seq<char>, Seq<Seq<char>>)>)
    requires
        distinct_names(s),
    ensures
        named_map(s).dom().finite(),
        named_map(s).len() == s.len(),
    decreases s.len(),
{
    if s.len() == 0 {
        assert(named_map(s).dom() =~= Set::<Seq<char>>::empty());
    } else {
        let t = s.drop_last();
        let e = s.last();
        assert(distinct_names(t)) by {
            assert forall|i: int, j: int| 0 <= i < j < t.len() implies (#[trigger] t[i]).0 != (
            #[trigger] t[j]).0 by {
                assert(s[i].0 != s[j].0);
            }
        }
        assert(!has_name(t, e.0)) by {
            if has_name(t, e.0) {
                let i = place_of_name(t, e.0);
                assert(s[i].0 != s[s.len() - 1].0);
            }
        }
        lemma_named_count(t);
        assert(t.push(e) =~= s);
        lemma_named_map_after_push(t, e);
        assert(named_map(s).dom() =~= named_map(t).dom().insert(e.0));
    }
}

/// A configured command under its name.
#[derive(Debug)]
struct NamedExecutor {
    name: String,
    executor: CommandExecutor,
}

/// The names and commands of a sequence of named executors.
spec fn named(entries: Seq<NamedExecutor>) -> Seq<(Seq<char>, Seq<Seq<char>>)> {
    Seq::new(entries.len(), |i: int| (entries[i].name@, entries[i].executor@))
}

/// The place at which `entries` holds the name `name`, if it holds it.
#[verifier::loop_isolation(false)]
fn place_of(entries: &Vec<NamedExecutor>, name: &str) -> (r: Option<usize>)
    ensures
        match r {
            Some(place) => place < entries@.len() && named(entries@)[place as int].0 == name@,
            None => !has_name(named(entries@), name@),
        },
{
    let mut i: usize = 0;
    while i < entries.len()
        invariant
            i <= entries.len(),
            forall|j: int| 0 <= j < i ==> (#[trigger] named(entries@)[j]).0 != name@,
        decreases entries.len() - i,
    {
        if same_text(entries[i].name.as_str(), name) {
            return Some(i);
        }
        i += 1;
    }
    None
}

/// The executors that the configuration defines, each under its own name.
#[derive(Debug)]
pub struct ExecutorTable {
    entries: Vec<NamedExecutor>,
}

impl View for ExecutorTable {
    type V = Map<Seq<char>, Seq<Seq<char>>>;

    closed spec fn view(&self) -> Map<Seq<char>, Seq<Seq<char>>> {
        named_map(named(self.entries@))
    }
}

/// The view of a table or a failure.
pub open spec fn table_result(r: Result<ExecutorTable, Failure>) -> Result<
    Map<Seq<char>, Seq<Seq<char>>>,
    Failure,
> {
    match r {
        Ok(table) => Ok(table@),
        Err(e) => Err(e),
    }
}

impl ExecutorTable {
    #[verifier::type_invariant]
    spec fn well_formed(&self) -> bool {
        distinct_names(named(self.entries@))
    }

    /// The table without any executor: that of a missing configuration file.
    pub fn new() -> (r: Self)
        ensures
            r@ == Map::<Seq<char>, Seq<Seq<char>>>::empty(),
    {
        let r = ExecutorTable { entries: Vec::new() };
        assert(r@ =~= Map::<Seq<char>, Seq<Seq<char>>>::empty());
        r
    }

    /// The number of executors.
    pub fn len(&self) -> (r: usize)
        ensures
            r == self@.len(),
    {
        proof {
            use_type_invariant(self);
            lemma_named_count(named(self.entries@));
        }
        self.entries.len()
    }

    /// The table of the entries of a configuration file. Of two entries with
    /// one name the later one counts. One command without a program makes the
    /// whole file an `InvalidCommand`.
    #[verifier::loop_isolation(false)]
    pub fn from_entries(entries: &Vec<ConfigEntry>) -> (r: Result<Self, Failure>)
        ensures
            table_result(r) == table_of(Some(entries_of(entries@))),
    {
        let ghost all = entries_of(entries@);
        let mut table: Vec<NamedExecutor> = Vec::new();
        let mut i: usize = 0;
        assert(named_map(named(table@)) =~= commands_of(all.take(0)));
        while i < entries.len()
            invariant
                i <= entries.len(),
                distinct_names(named(table@)),
                named_map(named(table@)) == commands_of(all.take(i as int)),
                forall|j: int| 0 <= j < i ==> (#[trigger] all[j]).1.len() > 0,
            decreases entries.len() - i,
        {
            let ghost before = named(table@);
            let ghost e = all[i as int];
            match CommandExecutor::new(&entries[i].command) {
                Ok(executor) => {
                    let name = entries[i].name.clone();
                    match place_of(&table, name.as_str()) {
                        Some(place) => {
                            table.set(place, NamedExecutor { name, executor });
                            proof {
                                lemma_named_map_after_update(before, place as int, e);
                                assert(named(table@) =~= before.update(place as int, e));
                            }
                        },
                        None => {
                            table.push(NamedExecutor { name, executor });
                            proof {
                                lemma_named_map_after_push(before, e);
                                assert(named(table@) =~= before.push(e));
                            }
                        },
                    }
                    proof {
                        assert(all.take(i + 1).drop_last() =~= all.take(i as int));
                        assert(all.take(i + 1).last() == e);
                    }
                },
                Err(_) => {
                    assert(all[i as int].1.len() == 0);
                    return Err(Failure::InvalidCommand);
                },
            }
            i += 1;
        }
        assert(all.take(i as int) =~= all);
        Ok(ExecutorTable { entries: table })
    }

    /// The executor named `name`. A name that the configuration does not
    /// define is an `UnknownExecutor`.
    pub fn take(self, name: &str) -> (r: Result<CommandExecutor, Failure>)
        ensures
            match r {
                Ok(executor) => self@.contains_key(name@) && self@[name@] == executor@,
                Err(e) => !self@.contains_key(name@) && e == Failure::UnknownExecutor,
            },
    {
        proof {
            use_type_invariant(&self);
        }
        let mut entries = self.entries;
        match place_of(&entries, name) {
            Some(place) => {
                proof {
                    lemma_name_stands_once(named(entries@), place as int);
                }
                let entry = entries.remove(place);
                Ok(entry.executor)
            },
            None => Err(Failure::UnknownExecutor),
        }
    }
}

/// The executors that the bytes of a configuration file define.
pub fn parse_config(bytes: &[u8]) -> (r: Result<ExecutorTable, Failure>)
    ensures
        table_result(r) == table_of(yaml_commands(bytes@)),
{
    match decode_commands(bytes) {
        Ok(entries) => ExecutorTable::from_entries(&entries),
        Err(_) => Err(Failure::ConfigParseError),
    }
}

} // verus!
