//! The kpep (kernel performance event) database of a CPU.
//!
//! A database is a property list that describes all events that the CPU's
//! performance counters can count.

use vstd::prelude::*;
use vstd::string::*;

use crate::aliases::{
    alias_target, law_alias_insert_then_lookup, resolved, with_alias, AliasTable,
};
use crate::document::{
    dictionary_field, distinct_keys, entry_trees, get_dictionary, get_text, get_unsigned,
    lemma_lookup, lemma_lookup_other, text_field, unsigned_field, value_tree, Plist, Tree,
};
use crate::order::{
    by_number, law_by_number_orders, law_by_number_stable, numbered, ordered_by_number, sort_by_number,
};
use crate::text::{decimal, decimal_text, hexadecimal, hexadecimal_text, same_text};

verus! {

/// What can go wrong between a CPU and its event database.
#[derive(Debug)]
pub enum KpepError {
    /// There is no default database on this platform.
    NoDefaultDatabase,
    /// No database file fits the CPU.
    DatabaseNotFound { cpu_type: u32, cpu_subtype: u32, cpu_family: u32 },
    /// The file at `path` could not be read as a property list.
    ReadError { path: String, source: String },
    /// A document is no property list.
    ParseError(plist::Error),
    /// A property list is no event database.
    StructureError(String),
    /// The CPU could not be identified.
    SysctlError(String),
}

/// `plist::Error`, which is carried along and shown.
#[verifier::external_type_specification]
#[verifier::external_body]
pub struct ExPlistError(plist::Error);

impl vstd::std_specs::convert::FromSpecImpl<plist::Error> for KpepError {
    open spec fn obeys_from_spec() -> bool {
        true
    }

    open spec fn from_spec(source: plist::Error) -> KpepError {
        KpepError::ParseError(source)
    }
}

impl From<plist::Error> for KpepError {
    fn from(source: plist::Error) -> (error: KpepError) {
        KpepError::ParseError(source)
    }
}

/// Whether `text` is the text of an error. That of a parse error ends in the
/// text of its source.
pub open spec fn is_error_text(error: KpepError, text: Seq<char>) -> bool {
    match error {
        KpepError::NoDefaultDatabase => text
            == "On platforms other than macos, there is no default kpep database. Please pass a path to a kpep database"@,
        KpepError::DatabaseNotFound { cpu_type, cpu_subtype, cpu_family } => text
            == "kpep database not found for cpu_type=0x"@ + hexadecimal(cpu_type as nat)
            + " cpu_subtype="@ + decimal(cpu_subtype as nat) + " cpu_family=0x"@ + hexadecimal(
            cpu_family as nat,
        ),
        KpepError::ReadError { path, source } => text == "failed to read kpep database at "@ + path@
            + ": "@ + source@,
        KpepError::ParseError(source) => exists|shown: String|
            #![trigger shown@]
            to_string_from_display_ensures::<plist::Error>(&source, shown) && text
                == "failed to parse kpep plist: "@ + shown@,
        KpepError::StructureError(detail) => text == "unexpected plist structure: "@ + detail@,
        KpepError::SysctlError(detail) => text == "sysctl failed: "@ + detail@,
    }
}

impl KpepError {
    /// The error as a text for people.
    pub fn message(&self) -> (text: String)
        ensures
            is_error_text(*self, text@),
    {
        match self {
            KpepError::NoDefaultDatabase =>
                "On platforms other than macos, there is no default kpep database. Please pass a path to a kpep database".to_owned(),
            KpepError::DatabaseNotFound { cpu_type, cpu_subtype, cpu_family } => {
                let mut text = "kpep database not found for cpu_type=0x".to_owned();
                text.append(hexadecimal_text(*cpu_type as u64).as_str());
                text.append(" cpu_subtype=");
                text.append(decimal_text(*cpu_subtype as u64).as_str());
                text.append(" cpu_family=0x");
                text.append(hexadecimal_text(*cpu_family as u64).as_str());
                text
            },
            KpepError::ReadError { path, source } => {
                let mut text = "failed to read kpep database at ".to_owned();
                text.append(path.as_str());
                text.append(": ");
                text.append(source.as_str());
                text
            },
            KpepError::ParseError(source) => {
                let shown = source.to_string();
                "failed to parse kpep plist: ".to_owned().concat(shown.as_str())
            },
            KpepError::StructureError(detail) => "unexpected plist structure: ".to_owned().concat(
                detail.as_str(),
            ),
            KpepError::SysctlError(detail) => "sysctl failed: ".to_owned().concat(detail.as_str()),
        }
    }
}

/// A single performance counter event definition.
#[derive(Debug)]
pub struct KpepEvent {
    /// Event name (e.g., "L1D_CACHE_MISS_LD").
    pub name: String,
    /// Human-readable description.
    pub description: String,
    /// Event number: the raw selector programmed into the counter config register.
    /// `None` for fixed counters that have no programmable event number.
    pub number: Option<u64>,
    /// Bitmask of which configurable counter slots can count this event.
    /// `None` means any slot.
    pub counters_mask: Option<u64>,
    /// Bitmask of which counters support PC capture (IP sampling) for this event.
    pub pc_capture_counters_mask: Option<u64>,
    /// If this is a fixed counter, its index (0 = cycles, 1 = instructions, etc.).
    pub fixed_counter: Option<u64>,
    /// Fallback event name if this event's fixed counter isn't available.
    pub fallback: Option<String>,
}

/// What a [`KpepEvent`] says.
pub struct EventModel {
    pub name: Seq<char>,
    pub description: Seq<char>,
    pub number: Option<u64>,
    pub counters_mask: Option<u64>,
    pub pc_capture_counters_mask: Option<u64>,
    pub fixed_counter: Option<u64>,
    pub fallback: Option<Seq<char>>,
}

impl EventModel {
    /// Whether the event is a fixed (non-configurable) counter.
    pub open spec fn is_fixed(self) -> bool {
        self.fixed_counter is Some
    }

    /// Whether the event can be programmed into a counter slot.
    pub open spec fn is_configurable(self) -> bool {
        self.number is Some && self.fixed_counter is None
    }
}

impl View for KpepEvent {
    type V = EventModel;

    open spec fn view(&self) -> EventModel {
        EventModel {
            name: self.name@,
            description: self.description@,
            number: self.number,
            counters_mask: self.counters_mask,
            pc_capture_counters_mask: self.pc_capture_counters_mask,
            fixed_counter: self.fixed_counter,
            fallback: match self.fallback {
                Some(name) => Some(name@),
                None => None,
            },
        }
    }
}

impl Clone for KpepEvent {
    fn clone(&self) -> (copy: KpepEvent)
        ensures
            copy@ == self@,
    {
        let fallback = match &self.fallback {
            Some(name) => Some(name.clone()),
            None => None,
        };
        KpepEvent {
            name: self.name.clone(),
            description: self.description.clone(),
            number: self.number,
            counters_mask: self.counters_mask,
            pc_capture_counters_mask: self.pc_capture_counters_mask,
            fixed_counter: self.fixed_counter,
            fallback,
        }
    }
}

/// What a list of events says.
pub open spec fn event_models(events: Seq<KpepEvent>) -> Seq<EventModel> {
    Seq::new(events.len(), |i: int| events[i]@)
}

impl KpepEvent {
    /// Whether this event is a fixed (non-configurable) counter.
    pub fn is_fixed(&self) -> (result: bool)
        ensures
            result == self@.is_fixed(),
            result == (self.fixed_counter is Some),
    {
        self.fixed_counter.is_some()
    }

    /// Whether this event is configurable (can be programmed into a counter slot).
    pub fn is_configurable(&self) -> (result: bool)
        ensures
            result == self@.is_configurable(),
            result == (self.number is Some && self.fixed_counter is None),
    {
        self.number.is_some() && self.fixed_counter.is_none()
    }
}

/// CPU metadata.
#[derive(Debug)]
pub struct CpuInfo {
    /// CPU architecture (e.g., "arm64").
    pub architecture: String,
    /// Marketing name (e.g., "Apple M2").
    pub marketing_name: String,
    /// Number of fixed (hardwired) counters.
    pub fixed_counters: u64,
    /// Configurable counter capacity.
    pub config_counters: u64,
    /// Event name aliases (e.g., "Cycles" -> "FIXED_CYCLES").
    pub aliases: AliasTable,
}

/// What a [`CpuInfo`] says.
pub struct CpuModel {
    pub architecture: Seq<char>,
    pub marketing_name: Seq<char>,
    pub fixed_counters: u64,
    pub config_counters: u64,
    pub aliases: Seq<(Seq<char>, Seq<char>)>,
}

impl View for CpuInfo {
    type V = CpuModel;

    open spec fn view(&self) -> CpuModel {
        CpuModel {
            architecture: self.architecture@,
            marketing_name: self.marketing_name@,
            fixed_counters: self.fixed_counters,
            config_counters: self.config_counters,
            aliases: self.aliases@,
        }
    }
}

impl Clone for CpuInfo {
    fn clone(&self) -> (copy: CpuInfo)
        ensures
            copy@ == self@,
    {
        CpuInfo {
            architecture: self.architecture.clone(),
            marketing_name: self.marketing_name.clone(),
            fixed_counters: self.fixed_counters,
            config_counters: self.config_counters,
            aliases: self.aliases.clone(),
        }
    }
}

/// The event database of a CPU.
#[derive(Debug)]
pub struct KpepDatabase {
    /// Database name/identifier.
    pub name: String,
    /// CPU metadata.
    pub cpu: CpuInfo,
    /// All available events.
    events: Vec<KpepEvent>,
}

/// What a [`KpepDatabase`] says.
pub struct DatabaseModel {
    pub name: Seq<char>,
    pub cpu: CpuModel,
    pub events: Seq<EventModel>,
}

impl View for KpepDatabase {
    type V = DatabaseModel;

    closed spec fn view(&self) -> DatabaseModel {
        DatabaseModel { name: self.name@, cpu: self.cpu@, events: event_models(self.events@) }
    }
}

/// `text`, or `default` where there is none.
pub open spec fn text_or(text: Option<Seq<char>>, default: Seq<char>) -> Seq<char> {
    match text {
        Some(text) => text,
        None => default,
    }
}

/// `number`, or zero where there is none.
pub open spec fn number_or_zero(number: Option<u64>) -> u64 {
    match number {
        Some(number) => number,
        None => 0,
    }
}

/// The event that a dictionary under `name` defines.
pub open spec fn event_of(name: Seq<char>, fields: Seq<(Seq<char>, Tree)>) -> EventModel {
    EventModel {
        name,
        description: text_or(text_field(fields, "description"@), ""@),
        number: unsigned_field(fields, "number"@),
        counters_mask: unsigned_field(fields, "counters_mask"@),
        pc_capture_counters_mask: unsigned_field(fields, "pc_capture_counters_mask"@),
        fixed_counter: unsigned_field(fields, "fixed_counter"@),
        fallback: text_field(fields, "fallback"@),
    }
}

/// The events that `entries` define: one for each dictionary among them.
pub open spec fn events_of(entries: Seq<(Seq<char>, Tree)>) -> Seq<EventModel>
    decreases entries.len(),
{
    if entries.len() == 0 {
        Seq::empty()
    } else {
        let before = events_of(entries.drop_last());
        match entries.last().1 {
            Tree::Dictionary(fields) => before.push(event_of(entries.last().0, fields)),
            _ => before,
        }
    }
}

/// The aliases that `entries` define: one for each text among them.
pub open spec fn aliases_of(entries: Seq<(Seq<char>, Tree)>) -> Seq<(Seq<char>, Seq<char>)>
    decreases entries.len(),
{
    if entries.len() == 0 {
        Seq::empty()
    } else {
        let before = aliases_of(entries.drop_last());
        match entries.last().1 {
            Tree::Text(target) => with_alias(before, entries.last().0, target),
            _ => before,
        }
    }
}

/// The CPU metadata in the `system.cpu` dictionary of the database `name`.
pub open spec fn cpu_of(name: Seq<char>, cpu: Seq<(Seq<char>, Tree)>) -> CpuModel {
    CpuModel {
        architecture: text_or(text_field(cpu, "architecture"@), "unknown"@),
        marketing_name: text_or(text_field(cpu, "marketing_name"@), name),
        fixed_counters: number_or_zero(unsigned_field(cpu, "fixed_counters"@)),
        config_counters: number_or_zero(unsigned_field(cpu, "config_counters"@)),
        aliases: match dictionary_field(cpu, "aliases"@) {
            Some(entries) => aliases_of(entries),
            None => Seq::empty(),
        },
    }
}

/// The database that a property list describes, or what it lacks.
pub open spec fn database_of(root: Tree) -> Result<DatabaseModel, Seq<char>> {
    match root {
        Tree::Dictionary(entries) => {
            let name = text_or(text_field(entries, "name"@), "unknown"@);
            match dictionary_field(entries, "system"@) {
                Some(system) => match dictionary_field(system, "cpu"@) {
                    Some(cpu) => match dictionary_field(cpu, "events"@) {
                        Some(events) => Ok(
                            DatabaseModel {
                                name,
                                cpu: cpu_of(name, cpu),
                                events: by_number(events_of(events)),
                            },
                        ),
                        None => Err("missing system.cpu.events"@),
                    },
                    None => Err("missing system.cpu"@),
                },
                None => Err("missing system"@),
            }
        },
        _ => Err("root is not a dict"@),
    }
}

/// Owns a text, or the default where there is none.
fn owned_or(text: Option<&str>, default: &str) -> (result: String)
    ensures
        result@ == match text {
            Some(found) => found@,
            None => default@,
        },
{
    match text {
        Some(found) => found.to_owned(),
        None => default.to_owned(),
    }
}

/// Reads the event that a dictionary under `name` defines.
fn read_event(name: &String, fields: &Vec<(String, Plist)>) -> (event: KpepEvent)
    ensures
        event@ == event_of(name@, entry_trees(fields@)),
{
    let description = owned_or(get_text(fields, "description"), "");
    let number = get_unsigned(fields, "number");
    let counters_mask = get_unsigned(fields, "counters_mask");
    let pc_capture_counters_mask = get_unsigned(fields, "pc_capture_counters_mask");
    let fixed_counter = get_unsigned(fields, "fixed_counter");
    let fallback = match get_text(fields, "fallback") {
        Some(fallback) => Some(fallback.to_owned()),
        None => None,
    };
    KpepEvent {
        name: name.clone(),
        description,
        number,
        counters_mask,
        pc_capture_counters_mask,
        fixed_counter,
        fallback,
    }
}

/// Reads the events that `entries` define.
fn read_events(entries: &Vec<(String, Plist)>) -> (events: Vec<KpepEvent>)
    ensures
        event_models(events@) == events_of(entry_trees(entries@)),
{
    let ghost trees = entry_trees(entries@);
    let mut events: Vec<KpepEvent> = Vec::with_capacity(entries.len());
    let mut i: usize = 0;
    assert(event_models(events@) =~= events_of(trees.take(0)));
    while i < entries.len()
        invariant
            i <= entries@.len(),
            trees == entry_trees(entries@),
            event_models(events@) == events_of(trees.take(i as int)),
        decreases entries@.len() - i,
    {
        let ghost before = event_models(events@);
        assert(trees.take(i + 1).drop_last() =~= trees.take(i as int));
        assert(trees.take(i + 1).last() == trees[i as int]);
        match entries[i].1.as_dictionary() {
            Some(fields) => {
                events.push(read_event(&entries[i].0, fields));
                assert(event_models(events@) =~= before.push(
                    event_of(trees[i as int].0, entry_trees(fields@)),
                ));
            },
            None => {},
        }
        i += 1;
    }
    assert(trees.take(i as int) =~= trees);
    events
}

/// Reads the aliases that `entries` define.
fn read_aliases(entries: &Vec<(String, Plist)>) -> (aliases: AliasTable)
    ensures
        aliases@ == aliases_of(entry_trees(entries@)),
{
    let ghost trees = entry_trees(entries@);
    let mut aliases = AliasTable::new();
    let mut i: usize = 0;
    assert(aliases@ =~= aliases_of(trees.take(0)));
    while i < entries.len()
        invariant
            i <= entries@.len(),
            trees == entry_trees(entries@),
            aliases@ == aliases_of(trees.take(i as int)),
        decreases entries@.len() - i,
    {
        assert(trees.take(i + 1).drop_last() =~= trees.take(i as int));
        assert(trees.take(i + 1).last() == trees[i as int]);
        if let Plist::Text(target) = &entries[i].1 {
            aliases.insert(entries[i].0.clone(), target.clone());
        }
        i += 1;
    }
    assert(trees.take(i as int) =~= trees);
    aliases
}

/// Reads the CPU metadata of the database `name`.
fn read_cpu(name: &String, cpu: &Vec<(String, Plist)>) -> (info: CpuInfo)
    ensures
        info@ == cpu_of(name@, entry_trees(cpu@)),
{
    let architecture = owned_or(get_text(cpu, "architecture"), "unknown");
    let marketing_name = owned_or(get_text(cpu, "marketing_name"), name.as_str());
    let fixed_counters = match get_unsigned(cpu, "fixed_counters") {
        Some(count) => count,
        None => 0,
    };
    let config_counters = match get_unsigned(cpu, "config_counters") {
        Some(count) => count,
        None => 0,
    };
    let aliases = match get_dictionary(cpu, "aliases") {
        Some(entries) => read_aliases(entries),
        None => AliasTable::new(),
    };
    CpuInfo { architecture, marketing_name, fixed_counters, config_counters, aliases }
}

/// The error of a property list that lacks something.
fn structure_error(text: &str) -> (error: KpepError)
    ensures
        error matches KpepError::StructureError(message) && message@ == text@,
{
    KpepError::StructureError(text.to_owned())
}

/// What reading a database from `root` gives: the database that it describes,
/// or a structure error that says what is missing.
pub open spec fn reads_as(root: Tree, result: Result<KpepDatabase, KpepError>) -> bool {
    match database_of(root) {
        Ok(model) => result matches Ok(database) && database@ == model,
        Err(text) => result matches Err(KpepError::StructureError(message)) && message@ == text,
    }
}

impl KpepDatabase {
    /// Reads the database that a property list describes.
    pub fn from_plist(root: &Plist) -> (result: Result<KpepDatabase, KpepError>)
        ensures
            reads_as(root.tree(), result),
    {
        let entries = match root.as_dictionary() {
            Some(entries) => entries,
            None => return Err(structure_error("root is not a dict")),
        };
        let name = owned_or(get_text(entries, "name"), "unknown");
        let system = match get_dictionary(entries, "system") {
            Some(system) => system,
            None => return Err(structure_error("missing system")),
        };
        let cpu_entries = match get_dictionary(system, "cpu") {
            Some(cpu) => cpu,
            None => return Err(structure_error("missing system.cpu")),
        };
        let cpu = read_cpu(&name, cpu_entries);
        let event_entries = match get_dictionary(cpu_entries, "events") {
            Some(events) => events,
            None => return Err(structure_error("missing system.cpu.events")),
        };
        let mut events = read_events(event_entries);
        sort_by_number(&mut events);
        Ok(KpepDatabase { name, cpu, events })
    }

    /// Reads the database that a property list value describes.
    pub fn parse(root: plist::Value) -> (result: Result<KpepDatabase, KpepError>)
        ensures
            reads_as(value_tree(root), result),
            result matches Ok(database) ==> distinct_names(database@.events),
    {
        let root = Plist::from_value(&root);
        let result = KpepDatabase::from_plist(&root);
        proof {
            if result is Ok {
                law_event_names_distinct(root.tree());
            }
        }
        result
    }
}

/// What a list of borrowed events says.
pub open spec fn borrowed_models(events: Seq<&KpepEvent>) -> Seq<EventModel> {
    Seq::new(events.len(), |i: int| events[i]@)
}

/// The configurable events among `events`, in their order.
pub open spec fn configurable_of(events: Seq<EventModel>) -> Seq<EventModel> {
    events.filter(|event: EventModel| event.is_configurable())
}

/// The fixed counters among `events`, in their order.
pub open spec fn fixed_of(events: Seq<EventModel>) -> Seq<EventModel> {
    events.filter(|event: EventModel| event.is_fixed())
}

/// The first event called `name`.
pub open spec fn event_named(events: Seq<EventModel>, name: Seq<char>) -> Option<EventModel>
    decreases events.len(),
{
    if events.len() == 0 {
        None
    } else if events[0].name == name {
        Some(events[0])
    } else {
        event_named(events.drop_first(), name)
    }
}

/// The event that `name` means in a database: the first one called as its
/// alias says, or called `name` itself where that is no alias.
pub open spec fn event_meant(database: DatabaseModel, name: Seq<char>) -> Option<EventModel> {
    event_named(database.events, resolved(database.cpu.aliases, name))
}

/// The event at `at` is the first of its name.
pub proof fn lemma_event_named(events: Seq<EventModel>, name: Seq<char>, at: int)
    requires
        0 <= at <= events.len(),
        forall|k: int| 0 <= k < at ==> (#[trigger] events[k]).name != name,
    ensures
        at < events.len() && events[at].name == name ==> event_named(events, name) == Some(
            events[at],
        ),
        at == events.len() ==> event_named(events, name) is None,
    decreases events.len(),
{
    if at > 0 {
        let rest = events.drop_first();
        assert forall|k: int| 0 <= k < at - 1 implies (#[trigger] rest[k]).name != name by {
            assert(rest[k] == events[k + 1]);
        }
        lemma_event_named(rest, name, at - 1);
    }
}

impl KpepDatabase {
    /// Database name/identifier.
    pub fn name(&self) -> (name: &str)
        ensures
            name@ == self@.name,
    {
        self.name.as_str()
    }

    /// CPU metadata.
    pub fn cpu(&self) -> (cpu: &CpuInfo)
        ensures
            cpu@ == self@.cpu,
    {
        &self.cpu
    }

    /// All events in the database.
    pub fn events(&self) -> (events: &[KpepEvent])
        ensures
            event_models(events@) == self@.events,
    {
        self.events.as_slice()
    }

    /// Only configurable (non-fixed) events.
    pub fn configurable_events(&self) -> (events: Vec<&KpepEvent>)
        ensures
            borrowed_models(events@) == configurable_of(self@.events),
    {
        let ghost models = event_models(self.events@);
        let mut events: Vec<&KpepEvent> = Vec::new();
        let mut i: usize = 0;
        reveal(Seq::filter);
        assert(borrowed_models(events@) =~= configurable_of(models.take(0)));
        while i < self.events.len()
            invariant
                i <= self.events@.len(),
                models == event_models(self.events@),
                borrowed_models(events@) == configurable_of(models.take(i as int)),
            decreases self.events@.len() - i,
        {
            let ghost before = borrowed_models(events@);
            assert(models.take(i + 1).drop_last() =~= models.take(i as int));
            reveal(Seq::filter);
            if self.events[i].is_configurable() {
                events.push(&self.events[i]);
                assert(borrowed_models(events@) =~= before.push(models[i as int]));
            }
            i += 1;
        }
        assert(models.take(i as int) =~= models);
        events
    }

    /// Only fixed counter events.
    pub fn fixed_events(&self) -> (events: Vec<&KpepEvent>)
        ensures
            borrowed_models(events@) == fixed_of(self@.events),
    {
        let ghost models = event_models(self.events@);
        let mut events: Vec<&KpepEvent> = Vec::new();
        let mut i: usize = 0;
        reveal(Seq::filter);
        assert(borrowed_models(events@) =~= fixed_of(models.take(0)));
        while i < self.events.len()
            invariant
                i <= self.events@.len(),
                models == event_models(self.events@),
                borrowed_models(events@) == fixed_of(models.take(i as int)),
            decreases self.events@.len() - i,
        {
            let ghost before = borrowed_models(events@);
            assert(models.take(i + 1).drop_last() =~= models.take(i as int));
            reveal(Seq::filter);
            if self.events[i].is_fixed() {
                events.push(&self.events[i]);
                assert(borrowed_models(events@) =~= before.push(models[i as int]));
            }
            i += 1;
        }
        assert(models.take(i as int) =~= models);
        events
    }

    /// Look up an event by name, or by an alias of its name.
    pub fn event_by_name(&self, name: &str) -> (result: Option<&KpepEvent>)
        ensures
            match event_meant(self@, name@) {
                Some(model) => result matches Some(event) && event@ == model,
                None => result is None,
            },
    {
        let wanted = match self.cpu.aliases.get(name) {
            Some(target) => target,
            None => name,
        };
        let ghost models = event_models(self.events@);
        let mut at: usize = 0;
        while at < self.events.len()
            invariant
                at <= self.events@.len(),
                models == event_models(self.events@),
                self@.events == models,
                wanted@ == resolved(self@.cpu.aliases, name@),
                forall|k: int| 0 <= k < at ==> (#[trigger] models[k]).name != wanted@,
            decreases self.events@.len() - at,
        {
            if same_text(self.events[at].name.as_str(), wanted) {
                proof {
                    lemma_event_named(models, wanted@, at as int);
                }
                return Some(&self.events[at]);
            }
            at += 1;
        }
        proof {
            lemma_event_named(models, wanted@, at as int);
        }
        None
    }
}

/// Law: what is said of a database is what its fields hold.
proof fn law_database_says_its_fields(database: KpepDatabase)
    ensures
        database@.name == database.name@,
        database@.cpu == database.cpu@,
        database@.events.len() == database.events@.len(),
        forall|i: int|
            0 <= i < database.events@.len() ==> #[trigger] database@.events[i]
                == database.events@[i]@,
{
}

/// Law: no event is both a fixed counter and configurable; an event with a
/// fixed counter and a number counts as fixed, and one with neither as neither.
pub proof fn law_fixed_excludes_configurable(event: EventModel)
    ensures
        !(event.is_fixed() && event.is_configurable()),
        event.fixed_counter is Some && event.number is Some ==> event.is_fixed(),
        event.fixed_counter is None && event.number is None ==> !event.is_fixed()
            && !event.is_configurable(),
{
}

/// Law: the events of a database are those that its property list defines, no
/// more and no less, in the order of their numbers, those without a number
/// first, and those of the same number in the order of the property list.
pub proof fn law_database_order(root: Tree)
    requires
        database_of(root) is Ok,
    ensures
        ({
            let events = database_of(root)->Ok_0.events;
            let defined = defined_events(root);
            &&& ordered_by_number(events)
            &&& events.to_multiset() == defined.to_multiset()
            &&& forall|number: Option<u64>| #[trigger]
                numbered(events, number) == numbered(defined, number)
        }),
{
    let defined = defined_events(root);
    law_by_number_orders(defined);
    assert forall|number: Option<u64>| #[trigger]
        numbered(by_number(defined), number) == numbered(defined, number) by {
        law_by_number_stable(defined, number);
    }
}

/// The entries under `system.cpu.events` of a property list.
pub open spec fn event_entries(root: Tree) -> Seq<(Seq<char>, Tree)> {
    dictionary_field(
        dictionary_field(
            dictionary_field(root->Dictionary_0, "system"@)->Some_0,
            "cpu"@,
        )->Some_0,
        "events"@,
    )->Some_0
}

/// The events that a property list defines, in its order.
pub open spec fn defined_events(root: Tree) -> Seq<EventModel> {
    events_of(event_entries(root))
}

/// Law: a property list is read as a database exactly where it is a dictionary
/// that has the dictionaries `system`, `system.cpu` and `system.cpu.events`.
pub proof fn law_database_needs(root: Tree)
    ensures
        database_of(root) is Ok <==> {
            &&& root is Dictionary
            &&& dictionary_field(root->Dictionary_0, "system"@) matches Some(system)
            &&& dictionary_field(system, "cpu"@) matches Some(cpu)
            &&& dictionary_field(cpu, "events"@) is Some
        },
{
}

/// Whether no two events have the same name.
pub open spec fn distinct_names(events: Seq<EventModel>) -> bool {
    forall|i: int, j: int|
        0 <= i < j < events.len() ==> (#[trigger] events[i]).name != (#[trigger] events[j]).name
}

proof fn lemma_events_of_names(entries: Seq<(Seq<char>, Tree)>)
    requires
        distinct_keys(entries),
    ensures
        distinct_names(events_of(entries)),
        forall|k: int|
            0 <= k < events_of(entries).len() ==> exists|i: int|
                0 <= i < entries.len() && (#[trigger] entries[i]).0 == (#[trigger] events_of(
                    entries,
                )[k]).name,
    decreases entries.len(),
{
    if entries.len() > 0 {
        let front = entries.drop_last();
        let before = events_of(front);
        let events = events_of(entries);
        assert forall|i: int, j: int| 0 <= i < j < front.len() implies (#[trigger] front[i]).0 != (
        #[trigger] front[j]).0 by {
            assert(front[i] == entries[i] && front[j] == entries[j]);
        }
        lemma_events_of_names(front);
        assert forall|k: int| 0 <= k < events.len() implies exists|i: int|
            0 <= i < entries.len() && (#[trigger] entries[i]).0 == (#[trigger] events[k]).name by {
            if k < before.len() {
                assert(events[k] == before[k]);
                let i = choose|i: int|
                    0 <= i < front.len() && (#[trigger] front[i]).0 == before[k].name;
                assert(entries[i] == front[i]);
            } else {
                assert(entries[entries.len() - 1].0 == events[k].name);
            }
        }
        assert forall|i: int, j: int| 0 <= i < j < events.len() implies (#[trigger] events[i]).name
            != (#[trigger] events[j]).name by {
            assert(events[i] == before[i]);
            if j < before.len() {
                assert(events[j] == before[j]);
            } else {
                let k = choose|k: int|
                    0 <= k < front.len() && (#[trigger] front[k]).0 == before[i].name;
                assert(entries[k] == front[k]);
                assert(entries[k].0 != entries[entries.len() - 1].0);
            }
        }
    }
}

proof fn lemma_distinct_names_rearranged(a: Seq<EventModel>, b: Seq<EventModel>)
    requires
        a.to_multiset() == b.to_multiset(),
        distinct_names(a),
    ensures
        distinct_names(b),
{
    broadcast use vstd::seq_lib::group_to_multiset_ensures;

    assert(a.no_duplicates());
    a.lemma_multiset_has_no_duplicates();
    b.lemma_multiset_has_no_duplicates_conv();
    assert forall|i: int, j: int| 0 <= i < j < b.len() implies (#[trigger] b[i]).name != (
    #[trigger] b[j]).name by {
        assert(b.to_multiset().count(b[i]) > 0);
        assert(b.to_multiset().count(b[j]) > 0);
        assert(a.contains(b[i]) && a.contains(b[j]));
        let p = choose|p: int| 0 <= p < a.len() && a[p] == b[i];
        let q = choose|q: int| 0 <= q < a.len() && a[q] == b[j];
        assert(p != q);
        if p < q {
            assert(a[p].name != a[q].name);
        } else {
            assert(a[q].name != a[p].name);
        }
    }
}

/// A dictionary inside one without repeated keys has none either.
proof fn lemma_field_well_keyed(entries: Seq<(Seq<char>, Tree)>, key: Seq<char>)
    requires
        forall|i: int| 0 <= i < entries.len() ==> (#[trigger] entries[i]).1.well_keyed(),
    ensures
        dictionary_field(entries, key) matches Some(fields) ==> Tree::Dictionary(
            fields,
        ).well_keyed(),
    decreases entries.len(),
{
    if entries.len() > 0 && entries[0].0 != key {
        let rest = entries.drop_first();
        assert forall|i: int| 0 <= i < rest.len() implies (#[trigger] rest[i]).1.well_keyed() by {
            assert(rest[i] == entries[i + 1]);
        }
        lemma_field_well_keyed(rest, key);
    }
}

/// Law: where no key occurs twice in a dictionary of the property list, no two
/// events of the database have the same name.
pub proof fn law_event_names_distinct(root: Tree)
    requires
        database_of(root) is Ok,
        root.well_keyed(),
    ensures
        distinct_names(database_of(root)->Ok_0.events),
{
    let entries = root->Dictionary_0;
    let system = dictionary_field(entries, "system"@)->Some_0;
    let cpu = dictionary_field(system, "cpu"@)->Some_0;
    lemma_field_well_keyed(entries, "system"@);
    lemma_field_well_keyed(system, "cpu"@);
    lemma_field_well_keyed(cpu, "events"@);
    let defined = defined_events(root);
    lemma_events_of_names(event_entries(root));
    law_by_number_orders(defined);
    lemma_distinct_names_rearranged(defined, by_number(defined));
}

proof fn lemma_event_found(events: Seq<EventModel>, name: Seq<char>)
    ensures
        event_named(events, name) is Some <==> exists|k: int|
            0 <= k < events.len() && (#[trigger] events[k]).name == name,
        event_named(events, name) matches Some(event) ==> event.name == name && events.contains(
            event,
        ),
    decreases events.len(),
{
    if events.len() > 0 && events[0].name != name {
        let rest = events.drop_first();
        lemma_event_found(rest, name);
        if event_named(rest, name) is Some {
            let k = choose|k: int| 0 <= k < rest.len() && (#[trigger] rest[k]).name == name;
            assert(events[k + 1] == rest[k]);
            let at = choose|at: int|
                0 <= at < rest.len() && rest[at] == event_named(rest, name)->Some_0;
            assert(events[at + 1] == rest[at]);
        } else if exists|k: int| 0 <= k < events.len() && (#[trigger] events[k]).name == name {
            let k = choose|k: int| 0 <= k < events.len() && (#[trigger] events[k]).name == name;
            assert(rest[k - 1] == events[k]);
        }
    }
}

/// Law: a lookup finds an event exactly where one is called what the name
/// stands for, and what it finds is an event of the database with that name.
pub proof fn law_lookup_finds(database: DatabaseModel, name: Seq<char>)
    ensures
        event_meant(database, name) is Some <==> exists|k: int|
            0 <= k < database.events.len() && (#[trigger] database.events[k]).name == resolved(
                database.cpu.aliases,
                name,
            ),
        event_meant(database, name) matches Some(event) ==> event.name == resolved(
            database.cpu.aliases,
            name,
        ) && database.events.contains(event),
{
    lemma_event_found(database.events, resolved(database.cpu.aliases, name));
}

/// Law: where no key occurs twice, the aliases are the entries that are texts,
/// and each stands for its text.
pub proof fn law_aliases_are_texts(entries: Seq<(Seq<char>, Tree)>, name: Seq<char>)
    requires
        distinct_keys(entries),
    ensures
        alias_target(aliases_of(entries), name) == text_field(entries, name),
    decreases entries.len(),
{
    if entries.len() > 0 {
        let front = entries.drop_last();
        let (key, value) = entries.last();
        assert forall|i: int, j: int| 0 <= i < j < front.len() implies (#[trigger] front[i]).0 != (
        #[trigger] front[j]).0 by {
            assert(front[i] == entries[i] && front[j] == entries[j]);
        }
        law_aliases_are_texts(front, name);
        if let Tree::Text(target) = value {
            law_alias_insert_then_lookup(aliases_of(front), key, target, name);
        }
        if key == name {
            assert forall|k: int| 0 <= k < front.len() implies (#[trigger] front[k]).0 != name && (
            #[trigger] entries[k]).0 != name by {
                assert(entries[k].0 != entries[entries.len() - 1].0);
            }
            lemma_lookup(front, name, front.len() as int);
            lemma_lookup(entries, name, front.len() as int);
        } else {
            lemma_lookup_other(entries, name);
        }
    }
}

/// Law: an alias is looked up before event names: it means the event that its
/// target names, even where an event has the alias for its name.
pub proof fn law_alias_comes_first(
    database: DatabaseModel,
    alias: Seq<char>,
    target: Seq<char>,
)
    requires
        alias_target(database.cpu.aliases, alias) == Some(target),
    ensures
        event_meant(database, alias) == event_named(database.events, target),
{
}

/// Law: where no two events have the same name, each event whose name is no
/// alias is found under its name.
pub proof fn law_every_event_is_found(database: DatabaseModel, at: int)
    requires
        distinct_names(database.events),
        0 <= at < database.events.len(),
        alias_target(database.cpu.aliases, database.events[at].name) is None,
    ensures
        event_meant(database, database.events[at].name) == Some(database.events[at]),
{
    let events = database.events;
    assert forall|k: int| 0 <= k < at implies (#[trigger] events[k]).name != events[at].name by {}
    lemma_event_named(events, events[at].name, at);
}

} // verus!
