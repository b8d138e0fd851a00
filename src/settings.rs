use vstd::prelude::*;

verus! {

/// How issues are described: each attribute with its aliases, the order in
/// which attributes are registered, the identifier key and the key that
/// takes nameless values.
#[derive(Clone, Debug)]
pub struct Issue {
    pub attrs: Vec<(String, Vec<String>)>,
    pub attrs_order: Option<Vec<String>>,
    pub id_attr_key: String,
    pub default_attr_key: String,
}

fn strings(items: &[&str]) -> (r: Vec<String>)
    ensures
        r@.len() == items@.len(),
        forall|i: int| 0 <= i < items@.len() ==> #[trigger] r@[i]@ == items@[i]@,
{
    let mut r: Vec<String> = Vec::new();
    let mut i: usize = 0;
    while i < items.len()
        invariant
            i <= items.len(),
            r@.len() == i,
            forall|j: int| 0 <= j < i ==> #[trigger] r@[j]@ == items@[j]@,
        decreases items.len() - i,
    {
        r.push(items[i].to_owned());
        i += 1;
    }
    r
}

impl Default for Issue {
    /// Attributes `id`, `priority`, `scope` and `name`; `id` identifies,
    /// `name` takes nameless values.
    fn default() -> (r: Issue)
        ensures
            r.attrs@.len() == 4,
            r.attrs_order is None,
            r.id_attr_key@ == "id"@,
            r.default_attr_key@ == "name"@,
    {
        let mut attrs: Vec<(String, Vec<String>)> = Vec::new();
        attrs.push(("id".to_owned(), strings(&["i"])));
        attrs.push(("priority".to_owned(), strings(&["p", "top", "t"])));
        attrs.push(("scope".to_owned(), strings(&["s"])));
        attrs.push(("name".to_owned(), strings(&["n", "title"])));
        Issue {
            attrs,
            attrs_order: None,
            id_attr_key: "id".to_owned(),
            default_attr_key: "name".to_owned(),
        }
    }
}

/// The path template used when none is configured.
pub const DEFAULT_FORMAT: &'static str = "{scope:/}{priority:.}{id:.}{name}{.:ext}";

/// The pattern that reads attributes back from a path.
pub const DEFAULT_CAPTURE: &'static str = "^(?:(?P<scope>.+)/)?(?:(?P<priority>[^\\.]+)\\.)??(?:(?P<id>[^\\.]+)\\.)??(?P<name>[^\\.]+)?(?:\\.(?P<ext>[^\\.]+))?$";

/// Settings of the file store.
#[derive(Clone, Debug)]
pub struct FsStore {
    pub attrs: Vec<(String, Vec<String>)>,
    pub format: String,
    pub capture: String,
    pub find_all: bool,
    pub issues_dir: String,
    pub ext: String,
    pub id_generator: String,
}

impl Default for FsStore {
    fn default() -> (r: FsStore)
        ensures
            r.attrs@.len() == 1,
            r.format@ == DEFAULT_FORMAT@,
            r.capture@ == DEFAULT_CAPTURE@,
            !r.find_all,
            r.issues_dir@ == "issues"@,
            r.ext@ == "md"@,
            r.id_generator@.len() == 0,
    {
        let mut attrs: Vec<(String, Vec<String>)> = Vec::new();
        attrs.push(("all".to_owned(), strings(&["a"])));
        FsStore {
            attrs,
            format: DEFAULT_FORMAT.to_owned(),
            capture: DEFAULT_CAPTURE.to_owned(),
            find_all: false,
            issues_dir: "issues".to_owned(),
            ext: "md".to_owned(),
            id_generator: String::new(),
        }
    }
}

/// Settings of a document store.
#[derive(Clone, Debug, Default)]
pub struct MongoStore {
    pub uri: Option<String>,
}

/// Settings of the stores.
#[derive(Clone, Debug)]
pub struct Store {
    pub fs: FsStore,
    pub mongo: MongoStore,
}

impl Default for Store {
    fn default() -> (r: Store)
        ensures
            r.fs.format@ == DEFAULT_FORMAT@,
            r.mongo.uri is None,
    {
        Store { fs: FsStore::default(), mongo: MongoStore { uri: None } }
    }
}

/// The kind of identifier generator named `sequence`.
pub const SEQUENCE: &'static str = "sequence";

/// Settings of the identifier generators.
#[derive(Clone, Debug)]
pub struct Generator {
    pub sequence: SequenceGenerator,
}

impl Default for Generator {
    fn default() -> (r: Generator)
        ensures
            !r.sequence.required,
            r.sequence.file@ == "todo.seq"@,
    {
        Generator { sequence: SequenceGenerator::default() }
    }
}

/// Settings of the sequence generator: whether an identifier is required,
/// and the counter file.
#[derive(Clone, Debug)]
pub struct SequenceGenerator {
    pub required: bool,
    pub file: String,
}

impl Default for SequenceGenerator {
    fn default() -> (r: SequenceGenerator)
        ensures
            !r.required,
            r.file@ == "todo.seq"@,
    {
        SequenceGenerator { required: false, file: "todo.seq".to_owned() }
    }
}

/// Settings of the new command: attribute values every new issue starts with.
#[derive(Clone, Debug, Default)]
pub struct NewCommand {
    pub default_attrs: Option<Vec<(String, String)>>,
}

/// Settings of the commands.
#[derive(Clone, Debug, Default)]
pub struct Command {
    pub new: NewCommand,
}

/// All settings.
#[derive(Clone, Debug)]
pub struct Settings {
    pub debug: bool,
    pub issue: Issue,
    pub store: Store,
    pub command: Command,
    pub generator: Generator,
}

impl Default for Settings {
    fn default() -> (r: Settings)
        ensures
            !r.debug,
            r.issue.id_attr_key@ == "id"@,
            r.issue.default_attr_key@ == "name"@,
            r.store.fs.format@ == DEFAULT_FORMAT@,
            r.command.new.default_attrs is None,
            r.generator.sequence.file@ == "todo.seq"@,
    {
        Settings {
            debug: false,
            issue: Issue::default(),
            store: Store::default(),
            command: Command { new: NewCommand { default_attrs: None } },
            generator: Generator::default(),
        }
    }
}

} // verus!
