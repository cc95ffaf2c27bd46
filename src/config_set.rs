use vstd::prelude::*;

use vstd::string::StringExecFns;

use crate::config::{default_name, default_parent, reserved_fields_at_default, with_rules, ConfigView, Configs};
use crate::rules::{
    defines, extend_with_inherited, lemma_own_rule_wins, lemma_rules_for_merge, lookup, merge_rules, rules_for,
    rules_of, Match, Rule,
};

verus! {

/// Why a set of configuration documents could not be loaded.
#[derive(Clone, Debug)]
pub enum ConfigLoadError {
    FileNotFound,
    UnableToReadFile,
    /// The document at the path does not parse; the second field is the
    /// parser's message.
    InvalidYAML(String, String),
    InvalidConfigDirectory,
    /// The document at the path, which is not the default one, sets a field
    /// reserved to the default document.
    InvalidParameter(String),
    /// The document at the path has a name that an earlier document has.
    NameDuplicate(String),
    UnableToCreateDefaultConfig,
}

impl PartialEq for ConfigLoadError {
    fn eq(&self, other: &ConfigLoadError) -> (r: bool) {
        match (self, other) {
            (ConfigLoadError::FileNotFound, ConfigLoadError::FileNotFound) => true,
            (ConfigLoadError::UnableToReadFile, ConfigLoadError::UnableToReadFile) => true,
            (ConfigLoadError::InvalidYAML(p, e), ConfigLoadError::InvalidYAML(q, f)) => *p == *q
                && *e == *f,
            (ConfigLoadError::InvalidConfigDirectory, ConfigLoadError::InvalidConfigDirectory) => true,
            (ConfigLoadError::InvalidParameter(p), ConfigLoadError::InvalidParameter(q)) => *p == *q,
            (ConfigLoadError::NameDuplicate(p), ConfigLoadError::NameDuplicate(q)) => *p == *q,
            (
                ConfigLoadError::UnableToCreateDefaultConfig,
                ConfigLoadError::UnableToCreateDefaultConfig,
            ) => true,
            _ => false,
        }
    }
}

impl vstd::std_specs::cmp::PartialEqSpecImpl for ConfigLoadError {
    open spec fn obeys_eq_spec() -> bool {
        true
    }

    open spec fn eq_spec(&self, other: &ConfigLoadError) -> bool {
        match (self, other) {
            (ConfigLoadError::FileNotFound, ConfigLoadError::FileNotFound) => true,
            (ConfigLoadError::UnableToReadFile, ConfigLoadError::UnableToReadFile) => true,
            (ConfigLoadError::InvalidYAML(p, e), ConfigLoadError::InvalidYAML(q, f)) => p@ == q@
                && e@ == f@,
            (ConfigLoadError::InvalidConfigDirectory, ConfigLoadError::InvalidConfigDirectory) => true,
            (ConfigLoadError::InvalidParameter(p), ConfigLoadError::InvalidParameter(q)) => p@ == q@,
            (ConfigLoadError::NameDuplicate(p), ConfigLoadError::NameDuplicate(q)) => p@ == q@,
            (
                ConfigLoadError::UnableToCreateDefaultConfig,
                ConfigLoadError::UnableToCreateDefaultConfig,
            ) => true,
            _ => false,
        }
    }
}

impl ConfigLoadError {
    /// A short description of the kind of error.
    pub fn description(&self) -> (r: &'static str)
        ensures
            r@ == match self {
                ConfigLoadError::FileNotFound => "File not found"@,
                ConfigLoadError::UnableToReadFile => "Unable to read config file"@,
                ConfigLoadError::InvalidYAML(_, _) => "Error parsing YAML file, invalid syntax"@,
                ConfigLoadError::InvalidConfigDirectory => "Invalid config directory"@,
                ConfigLoadError::InvalidParameter(_) =>
                    "Invalid parameter, use of reserved parameters in user defined configs is not permitted"@,
                ConfigLoadError::NameDuplicate(_) =>
                    "Found duplicate 'name' in some configurations, please use different names"@,
                ConfigLoadError::UnableToCreateDefaultConfig => "Could not generate default config file"@,
            },
    {
        match self {
            ConfigLoadError::FileNotFound => "File not found",
            ConfigLoadError::UnableToReadFile => "Unable to read config file",
            ConfigLoadError::InvalidYAML(_, _) => "Error parsing YAML file, invalid syntax",
            ConfigLoadError::InvalidConfigDirectory => "Invalid config directory",
            ConfigLoadError::InvalidParameter(_) =>
                "Invalid parameter, use of reserved parameters in user defined configs is not permitted",
            ConfigLoadError::NameDuplicate(_) =>
                "Found duplicate 'name' in some configurations, please use different names",
            ConfigLoadError::UnableToCreateDefaultConfig => "Could not generate default config file",
        }
    }

    /// The message shown to the user, naming the document at fault.
    pub fn to_string(&self) -> (r: String)
        ensures
            r@ == match self {
                ConfigLoadError::FileNotFound => "File not found"@,
                ConfigLoadError::UnableToReadFile => "Unable to read config file"@,
                ConfigLoadError::InvalidYAML(p, e) => "Error parsing YAML file '"@ + p@
                    + "', invalid syntax: "@ + e@,
                ConfigLoadError::InvalidConfigDirectory => "Invalid config directory"@,
                ConfigLoadError::InvalidParameter(p) => "Invalid parameter in '"@ + p@
                    + "', use of reserved parameters in used defined configs is not permitted"@,
                ConfigLoadError::NameDuplicate(p) => "Found duplicate 'name' in '"@ + p@
                    + "', please use different names"@,
                ConfigLoadError::UnableToCreateDefaultConfig => "Could not generate default config file"@,
            },
    {
        match self {
            ConfigLoadError::FileNotFound => "File not found".to_owned(),
            ConfigLoadError::UnableToReadFile => "Unable to read config file".to_owned(),
            ConfigLoadError::InvalidYAML(p, e) => {
                let mut r = "Error parsing YAML file '".to_owned();
                r.append(p.as_str());
                r.append("', invalid syntax: ");
                r.append(e.as_str());
                r
            },
            ConfigLoadError::InvalidConfigDirectory => "Invalid config directory".to_owned(),
            ConfigLoadError::InvalidParameter(p) => {
                let mut r = "Invalid parameter in '".to_owned();
                r.append(p.as_str());
                r.append("', use of reserved parameters in used defined configs is not permitted");
                r
            },
            ConfigLoadError::NameDuplicate(p) => {
                let mut r = "Found duplicate 'name' in '".to_owned();
                r.append(p.as_str());
                r.append("', please use different names");
                r
            },
            ConfigLoadError::UnableToCreateDefaultConfig => "Could not generate default config file".to_owned(),
        }
    }
}

/// Whether `e` reports a reserved field set in the document at `path`.
pub open spec fn is_invalid_parameter(e: ConfigLoadError, path: Seq<char>) -> bool {
    match e {
        ConfigLoadError::InvalidParameter(p) => p@ == path,
        _ => false,
    }
}

/// Whether `e` reports a duplicate name in the document at `path`.
pub open spec fn is_name_duplicate(e: ConfigLoadError, path: Seq<char>) -> bool {
    match e {
        ConfigLoadError::NameDuplicate(p) => p@ == path,
        _ => false,
    }
}

/// The final configuration: the resolved default document and the resolved
/// root documents other than it, in the order they were registered.
#[derive(Clone, Debug)]
pub struct ConfigSet {
    pub default: Configs,
    pub specific: Vec<Configs>,
}

/// The mathematical model of a [`ConfigSet`].
pub struct ConfigSetView {
    pub default: ConfigView,
    pub specific: Seq<ConfigView>,
}

impl View for ConfigSet {
    type V = ConfigSetView;

    open spec fn view(&self) -> ConfigSetView {
        ConfigSetView { default: self.default@, specific: views_of(self.specific@) }
    }
}

/// Access to the configuration in force, for the parts that expand text.
pub trait ConfigManager<'a> {
    fn active_config(&'a self) -> &'a Configs;

    fn default_config(&'a self) -> &'a Configs;

    fn matches(&'a self) -> &'a Vec<Match>;
}

pub open spec fn views_of(cs: Seq<Configs>) -> Seq<ConfigView> {
    cs.map_values(|c: Configs| c@)
}

pub open spec fn names_of(ns: Seq<String>) -> Seq<Seq<char>> {
    ns.map_values(|s: String| s@)
}

/// How many of `children` have a name that is not among `ancestors`.
pub open spec fn fresh_count(children: Seq<ConfigView>, ancestors: Seq<Seq<char>>) -> nat
    decreases children.len(),
{
    if children.len() == 0 {
        0
    } else {
        fresh_count(children.drop_last(), ancestors) + if ancestors.contains(children.last().name) {
            0nat
        } else {
            1nat
        }
    }
}

/// Adding a name to the ancestors never adds a fresh child, and removes one
/// where a child has that name and it was not there yet.
pub proof fn lemma_fresh_count_push(children: Seq<ConfigView>, ancestors: Seq<Seq<char>>, x: Seq<char>)
    ensures
        fresh_count(children, ancestors.push(x)) <= fresh_count(children, ancestors),
        !ancestors.contains(x) && (exists|i: int| 0 <= i < children.len() && children[i].name == x)
            ==> fresh_count(children, ancestors.push(x)) < fresh_count(children, ancestors),
    decreases children.len(),
{
    if children.len() > 0 {
        let rest = children.drop_last();
        let y = children.last().name;
        lemma_fresh_count_push(rest, ancestors, x);
        if ancestors.contains(y) {
            let k = choose|k: int| 0 <= k < ancestors.len() && ancestors[k] == y;
            assert(ancestors.push(x)[k] == y);
        }
        if y == x {
            assert(ancestors.push(x)[ancestors.len() as int] == y);
        }
        if ancestors.push(x).contains(y) {
            let k = choose|k: int| 0 <= k < ancestors.push(x).len() && ancestors.push(x)[k] == y;
            if k < ancestors.len() {
                assert(ancestors[k] == y);
            }
        }
        if !ancestors.contains(x) && (exists|i: int| 0 <= i < children.len() && children[i].name == x)
            && y != x {
            let i = choose|i: int| 0 <= i < children.len() && children[i].name == x;
            assert(rest[i].name == x);
        }
    }
}

#[via_fn]
proof fn reduce_from_decreases(
    acc: Seq<Rule>,
    name: Seq<char>,
    children: Seq<ConfigView>,
    ancestors: Seq<Seq<char>>,
    i: nat,
) {
    if i < children.len() && children[i as int].parent == name && !ancestors.contains(
        children[i as int].name,
    ) {
        lemma_fresh_count_push(children, ancestors, children[i as int].name);
    }
}

/// The rules of a document named `name` after merging into `acc` the
/// documents of `children`, from position `i` on, whose parent is `name`.
/// Each such child is first reduced the same way, so that its own
/// descendants are folded into it before it is merged. A child whose name
/// is already on the path from the root (`ancestors`) would close a cycle of
/// parent references and is left out.
pub open spec fn reduce_from(
    acc: Seq<Rule>,
    name: Seq<char>,
    children: Seq<ConfigView>,
    ancestors: Seq<Seq<char>>,
    i: nat,
) -> Seq<Rule>
    decreases fresh_count(children, ancestors), children.len() - i,
    via reduce_from_decreases
{
    if i >= children.len() {
        acc
    } else {
        let c = children[i as int];
        if c.parent == name && !ancestors.contains(c.name) {
            let sub = reduce_from(c.matches, c.name, children, ancestors.push(c.name), 0);
            reduce_from(merge_rules(sub, acc), name, children, ancestors, i + 1)
        } else {
            reduce_from(acc, name, children, ancestors, i + 1)
        }
    }
}

/// Whether `c` is merged into the document named `name` whose path from the
/// root holds the names `ancestors`.
pub open spec fn attached(c: ConfigView, name: Seq<char>, ancestors: Seq<Seq<char>>) -> bool {
    c.parent == name && !ancestors.contains(c.name)
}

/// The rules of the attached child `c` once its own descendants are folded in.
pub open spec fn reduce_child(c: ConfigView, children: Seq<ConfigView>, ancestors: Seq<Seq<char>>) -> Seq<Rule> {
    reduce_from(c.matches, c.name, children, ancestors.push(c.name), 0)
}

/// A trigger that no attached child (from position `i` on) defines, even
/// through its own descendants, keeps the rules it had before the children
/// were merged.
pub proof fn lemma_untouched_trigger_kept(
    acc: Seq<Rule>,
    name: Seq<char>,
    children: Seq<ConfigView>,
    ancestors: Seq<Seq<char>>,
    i: nat,
    t: Seq<char>,
)
    requires
        forall|j: int| i <= j < children.len() && #[trigger] attached(children[j], name, ancestors)
            ==> !defines(reduce_child(children[j], children, ancestors), t),
    ensures
        lookup(reduce_from(acc, name, children, ancestors, i), t) == lookup(acc, t),
        rules_for(reduce_from(acc, name, children, ancestors, i), t) == rules_for(acc, t),
    decreases children.len() - i,
{
    if i < children.len() {
        let c = children[i as int];
        if attached(c, name, ancestors) {
            let sub = reduce_child(c, children, ancestors);
            lemma_own_rule_wins(sub, acc, t);
            lemma_rules_for_merge(sub, acc, t);
            lemma_untouched_trigger_kept(merge_rules(sub, acc), name, children, ancestors, i + 1, t);
        } else {
            lemma_untouched_trigger_kept(acc, name, children, ancestors, i + 1, t);
        }
    }
}

/// A descendant's rule wins over its ancestors': when the attached child at
/// position `j` defines a trigger (itself or through its descendants) and no
/// later attached child does, the merged document's rules for the trigger
/// are exactly that child's, and none of the ancestor's remains. Applied again to the child, and to its child in turn, this
/// holds at every depth.
pub proof fn lemma_last_defining_child_wins(
    acc: Seq<Rule>,
    name: Seq<char>,
    children: Seq<ConfigView>,
    ancestors: Seq<Seq<char>>,
    i: nat,
    j: int,
    t: Seq<char>,
)
    requires
        i <= j < children.len(),
        attached(children[j], name, ancestors),
        defines(reduce_child(children[j], children, ancestors), t),
        forall|k: int| j < k < children.len() && #[trigger] attached(children[k], name, ancestors)
            ==> !defines(reduce_child(children[k], children, ancestors), t),
    ensures
        lookup(reduce_from(acc, name, children, ancestors, i), t) == lookup(
            reduce_child(children[j], children, ancestors),
            t,
        ),
        rules_for(reduce_from(acc, name, children, ancestors, i), t) == rules_for(
            reduce_child(children[j], children, ancestors),
            t,
        ),
    decreases children.len() - i,
{
    let c = children[i as int];
    if i < j {
        if attached(c, name, ancestors) {
            let sub = reduce_child(c, children, ancestors);
            lemma_last_defining_child_wins(merge_rules(sub, acc), name, children, ancestors, i + 1, j, t);
        } else {
            lemma_last_defining_child_wins(acc, name, children, ancestors, i + 1, j, t);
        }
    } else {
        let sub = reduce_child(c, children, ancestors);
        lemma_own_rule_wins(sub, acc, t);
        lemma_rules_for_merge(sub, acc, t);
        lemma_untouched_trigger_kept(merge_rules(sub, acc), name, children, ancestors, i + 1, t);
    }
}

/// A trigger that neither `acc` nor any document of `children` defines is
/// not defined after the merge either: reduction brings in no rule that no
/// document authored.
pub proof fn lemma_unused_trigger_stays_unused(
    acc: Seq<Rule>,
    name: Seq<char>,
    children: Seq<ConfigView>,
    ancestors: Seq<Seq<char>>,
    i: nat,
    t: Seq<char>,
)
    requires
        !defines(acc, t),
        forall|j: int| 0 <= j < children.len() ==> !defines(#[trigger] children[j].matches, t),
    ensures
        !defines(reduce_from(acc, name, children, ancestors, i), t),
    decreases fresh_count(children, ancestors), children.len() - i,
{
    if i < children.len() {
        let c = children[i as int];
        if attached(c, name, ancestors) {
            lemma_fresh_count_push(children, ancestors, c.name);
            lemma_unused_trigger_stays_unused(c.matches, c.name, children, ancestors.push(c.name), 0, t);
            let sub = reduce_child(c, children, ancestors);
            let m = merge_rules(sub, acc);
            lemma_own_rule_wins(sub, acc, t);
            crate::rules::lemma_lookup_defines(m, t);
            crate::rules::lemma_lookup_defines(acc, t);
            lemma_unused_trigger_stays_unused(m, name, children, ancestors, i + 1, t);
        } else {
            lemma_unused_trigger_stays_unused(acc, name, children, ancestors, i + 1, t);
        }
    }
}

/// When a single document of `children` has rules for a trigger, and they
/// are the one rule `r`, the merged rules for that trigger are either those
/// the merge started from or `r` alone: rules for one trigger from two
/// documents never end up side by side.
pub proof fn lemma_single_definer(
    acc: Seq<Rule>,
    name: Seq<char>,
    children: Seq<ConfigView>,
    ancestors: Seq<Seq<char>>,
    i: nat,
    t: Seq<char>,
    d: int,
    r: Rule,
)
    requires
        0 <= d < children.len(),
        rules_for(children[d].matches, t) == seq![r],
        forall|j: int| 0 <= j < children.len() && j != d ==> !defines(#[trigger] children[j].matches, t),
    ensures
        rules_for(reduce_from(acc, name, children, ancestors, i), t) == rules_for(acc, t)
            || rules_for(reduce_from(acc, name, children, ancestors, i), t) == seq![r],
    decreases fresh_count(children, ancestors), children.len() - i,
{
    if i < children.len() {
        let c = children[i as int];
        if attached(c, name, ancestors) {
            lemma_fresh_count_push(children, ancestors, c.name);
            lemma_single_definer(c.matches, c.name, children, ancestors.push(c.name), 0, t, d, r);
            let sub = reduce_child(c, children, ancestors);
            let m = merge_rules(sub, acc);
            if i as int != d {
                crate::rules::lemma_rules_for_defines(c.matches, t);
            }
            crate::rules::lemma_rules_for_defines(sub, t);
            lemma_rules_for_merge(sub, acc, t);
            lemma_single_definer(m, name, children, ancestors, i + 1, t, d, r);
        } else {
            lemma_single_definer(acc, name, children, ancestors, i + 1, t, d, r);
        }
    }
}

/// A root document with all its descendants among `children` folded in.
pub open spec fn reduce_root(root: ConfigView, children: Seq<ConfigView>) -> ConfigView {
    with_rules(root, reduce_from(root.matches, root.name, children, seq![root.name], 0))
}

/// A resolved specific document after the default rules are folded in,
/// unless it excludes them.
pub open spec fn inject_default(c: ConfigView, default: ConfigView) -> ConfigView {
    if c.exclude_default_matches {
        c
    } else {
        with_rules(c, merge_rules(c.matches, default.matches))
    }
}

/// The configuration set made of the root documents `roots` (the default
/// document first) and the other documents `children`.
pub open spec fn resolve_spec(roots: Seq<ConfigView>, children: Seq<ConfigView>) -> ConfigSetView {
    let default = reduce_root(roots[0], children);
    ConfigSetView {
        default,
        specific: roots.skip(1).map_values(|c: ConfigView| inject_default(reduce_root(c, children), default)),
    }
}

fn clone_matches(ms: &Vec<Match>) -> (r: Vec<Match>)
    ensures
        rules_of(r@) == rules_of(ms@),
{
    let mut r: Vec<Match> = Vec::new();
    let mut i: usize = 0;
    while i < ms.len()
        invariant
            0 <= i <= ms.len(),
            rules_of(r@) == rules_of(ms@).take(i as int),
        decreases ms.len() - i,
    {
        let ghost before = r@;
        r.push(ms[i].clone());
        proof {
            assert(rules_of(r@) =~= rules_of(before).push(ms@[i as int]@));
            assert(rules_of(ms@).take(i + 1) =~= rules_of(ms@).take(i as int).push(ms@[i as int]@));
        }
        i = i + 1;
    }
    proof {
        assert(rules_of(ms@).take(ms.len() as int) =~= rules_of(ms@));
    }
    r
}

fn contains_name(names: &Vec<String>, x: &String) -> (r: bool)
    ensures
        r == names_of(names@).contains(x@),
{
    let mut i: usize = 0;
    while i < names.len()
        invariant
            0 <= i <= names.len(),
            forall|k: int| 0 <= k < i ==> names@[k]@ != x@,
        decreases names.len() - i,
    {
        if names[i] == *x {
            proof {
                assert(names_of(names@)[i as int] == x@);
            }
            return true;
        }
        i = i + 1;
    }
    proof {
        if names_of(names@).contains(x@) {
            let k = choose|k: int| 0 <= k < names_of(names@).len() && names_of(names@)[k] == x@;
            assert(names@[k]@ == x@);
        }
    }
    false
}

/// The rules `own` of the document named `name`, with its descendants among
/// `children` merged in; `ancestors` holds the names on the path from the root.
fn reduce_rules(own: Vec<Match>, name: &String, children: &Vec<Configs>, ancestors: &mut Vec<String>) -> (r: Vec<Match>)
    ensures
        rules_of(r@) == reduce_from(rules_of(own@), name@, views_of(children@), names_of(old(ancestors)@), 0),
        final(ancestors)@ == old(ancestors)@,
    decreases fresh_count(views_of(children@), names_of(ancestors@)),
{
    let ghost ch = views_of(children@);
    let ghost anc = names_of(ancestors@);
    let ghost anc0 = ancestors@;
    let mut acc = own;
    let mut i: usize = 0;
    while i < children.len()
        invariant
            0 <= i <= children.len(),
            ch == views_of(children@),
            ancestors@ == anc0,
            anc == names_of(anc0),
            anc0 == old(ancestors)@,
            reduce_from(rules_of(acc@), name@, ch, anc, i as nat) == reduce_from(rules_of(own@), name@, ch, anc, 0),
        decreases children.len() - i,
    {
        let c = &children[i];
        proof {
            assert(ch[i as int] == c@);
        }
        if c.parent == *name && !contains_name(ancestors, &c.name) {
            ancestors.push(c.name.clone());
            proof {
                assert(names_of(ancestors@) =~= anc.push(c.name@));
                lemma_fresh_count_push(ch, anc, c.name@);
            }
            let sub = reduce_rules(clone_matches(&c.matches), &c.name, children, ancestors);
            ancestors.pop();
            proof {
                assert(ancestors@ =~= anc0);
            }
            let mut merged = sub;
            extend_with_inherited(&mut merged, &acc);
            acc = merged;
        }
        i = i + 1;
    }
    acc
}

impl ConfigSet {
    /// The root document `target` with its descendants among `children`
    /// folded in: a document is a child of the one whose name is its parent.
    pub fn reduce_configs(target: Configs, children: &Vec<Configs>) -> (r: Configs)
        ensures
            r@ == reduce_root(target@, views_of(children@)),
    {
        let mut target = target;
        let mut ancestors: Vec<String> = Vec::new();
        ancestors.push(target.name.clone());
        proof {
            assert(names_of(ancestors@) =~= seq![target.name@]);
        }
        let own = clone_matches(&target.matches);
        let rules = reduce_rules(own, &target.name, children, &mut ancestors);
        target.matches = rules;
        target
    }
}

/// The name a document goes by: the one it declares, or its path where it
/// declares none.
pub open spec fn effective_name(path: Seq<char>, c: ConfigView) -> Seq<char> {
    if c.name == "default"@ {
        path
    } else {
        c.name
    }
}

/// Whether the document is the root of a tree of its own.
pub open spec fn is_root(c: ConfigView) -> bool {
    c.parent == "self"@
}

/// The documents registered so far, sorted into roots and children.
pub struct ConfigIndex {
    roots: Vec<Configs>,
    children: Vec<Configs>,
    names: Vec<String>,
}

/// The mathematical model of a [`ConfigIndex`]: the root documents (the
/// default document first), the other documents, and the names taken by
/// registered documents.
pub struct IndexView {
    pub roots: Seq<ConfigView>,
    pub children: Seq<ConfigView>,
    pub names: Seq<Seq<char>>,
}

impl View for ConfigIndex {
    type V = IndexView;

    closed spec fn view(&self) -> IndexView {
        IndexView {
            roots: views_of(self.roots@),
            children: views_of(self.children@),
            names: names_of(self.names@),
        }
    }
}

/// The index after the document at `path` with contents `c` is accepted.
pub open spec fn registered(v: IndexView, path: Seq<char>, c: ConfigView) -> IndexView {
    let d = ConfigView { name: effective_name(path, c), ..c };
    if is_root(c) {
        IndexView { roots: v.roots.push(d), names: v.names.push(d.name), ..v }
    } else {
        IndexView { children: v.children.push(d), names: v.names.push(d.name), ..v }
    }
}

impl ConfigIndex {
    pub open spec fn wf(&self) -> bool {
        self@.roots.len() >= 1
    }

    /// An index holding the default document alone; its name is taken, so
    /// no other document may have it.
    pub fn new(default: Configs) -> (r: ConfigIndex)
        ensures
            r.wf(),
            r@ == (IndexView { roots: seq![default@], children: seq![], names: seq![default@.name] }),
    {
        let mut names: Vec<String> = Vec::new();
        names.push(default.name.clone());
        let mut roots: Vec<Configs> = Vec::new();
        roots.push(default);
        let r = ConfigIndex { roots, children: Vec::new(), names };
        proof {
            assert(r@.roots =~= seq![default@]);
            assert(r@.children =~= seq![]);
            assert(r@.names =~= seq![default@.name]);
        }
        r
    }

    /// Adds the document loaded from `path`, which is not the default one.
    /// It is refused if it sets a field reserved to the default document, or
    /// else if its name, the declared one or its path, is already taken. An
    /// accepted document goes among the roots when its parent is `self`,
    /// among the children otherwise.
    pub fn register(&mut self, path: &str, config: Configs) -> (r: Result<(), ConfigLoadError>)
        requires
            old(self).wf(),
        ensures
            final(self).wf(),
            r is Ok <==> reserved_fields_at_default(config@) && !old(self)@.names.contains(
                effective_name(path@, config@),
            ),
            r is Ok ==> final(self)@ == registered(old(self)@, path@, config@),
            !reserved_fields_at_default(config@) ==> r is Err && is_invalid_parameter(r->Err_0, path@),
            reserved_fields_at_default(config@) && old(self)@.names.contains(effective_name(path@, config@))
                ==> r is Err && is_name_duplicate(r->Err_0, path@),
            r is Err ==> final(self)@ == old(self)@,
    {
        if !config.validate_user_defined_config() {
            return Err(ConfigLoadError::InvalidParameter(path.to_owned()));
        }
        let ghost c0 = config@;
        let mut config = config;
        if config.name == default_name() {
            config.name = path.to_owned();
        }
        if contains_name(&self.names, &config.name) {
            return Err(ConfigLoadError::NameDuplicate(path.to_owned()));
        }
        self.names.push(config.name.clone());
        if config.parent == default_parent() {
            self.roots.push(config);
        } else {
            self.children.push(config);
        }
        proof {
            let want = registered(old(self)@, path@, c0);
            assert(config@ == ConfigView { name: effective_name(path@, c0), ..c0 });
            assert(self@.names =~= want.names);
            assert(self@.roots =~= want.roots);
            assert(self@.children =~= want.children);
        }
        Ok(())
    }

    /// Folds every tree into its root, then folds the resolved default rules
    /// into each other root that does not exclude them.
    pub fn resolve(self) -> (r: ConfigSet)
        requires
            self.wf(),
        ensures
            r@ == resolve_spec(self@.roots, self@.children),
    {
        let ghost roots0 = self@.roots;
        let ghost ch = self@.children;
        let ConfigIndex { roots, children, names: _ } = self;
        let mut roots = roots;
        let first = roots.remove(0);
        let default = ConfigSet::reduce_configs(first, &children);
        let ghost want = resolve_spec(roots0, ch);
        proof {
            assert(views_of(roots@) =~= roots0.skip(1));
        }
        let mut specific: Vec<Configs> = Vec::new();
        let ghost total = roots@.len();
        while roots.len() > 0
            invariant
                ch == views_of(children@),
                default@ == want.default,
                want == resolve_spec(roots0, ch),
                total == roots0.len() - 1,
                specific@.len() + roots@.len() == total,
                views_of(roots@) == roots0.skip(1 + specific@.len() as int),
                views_of(specific@) == want.specific.take(specific@.len() as int),
            decreases roots@.len(),
        {
            let ghost k = specific@.len() as int;
            let ghost rs = roots@;
            let c = roots.remove(0);
            proof {
                assert(views_of(rs)[0] == roots0.skip(1 + k)[0]);
                assert(c@ == roots0[1 + k]);
                assert(roots@ =~= rs.skip(1));
                assert forall|i: int| 0 <= i < roots@.len() implies views_of(roots@)[i] == roots0.skip(1 + k + 1)[i] by {
                    assert(views_of(rs)[i + 1] == roots0.skip(1 + k)[i + 1]);
                }
                assert(views_of(roots@) =~= roots0.skip(1 + k + 1));
            }
            let mut c = ConfigSet::reduce_configs(c, &children);
            if !c.exclude_default_matches {
                c.merge_default(&default);
            }
            let ghost before = specific@;
            specific.push(c);
            proof {
                assert(want.specific[k] == inject_default(reduce_root(roots0[1 + k], ch), want.default));
                assert(views_of(specific@) =~= views_of(before).push(c@));
                assert(want.specific.take(k + 1) =~= want.specific.take(k).push(want.specific[k]));
            }
        }
        proof {
            assert(want.specific.take(total as int) =~= want.specific);
        }
        ConfigSet { default, specific }
    }
}

/// Resolution is deterministic: the same registered documents always give
/// the same configuration set.
pub proof fn lemma_resolution_deterministic(a: IndexView, b: IndexView)
    requires
        a.roots == b.roots,
        a.children == b.children,
    ensures
        resolve_spec(a.roots, a.children) == resolve_spec(b.roots, b.children),
{
}

/// Registration is deterministic too: the same document registered into the
/// same index gives the same index.
pub proof fn lemma_registration_deterministic(v: IndexView, path: Seq<char>, a: ConfigView, b: ConfigView)
    requires
        a == b,
    ensures
        registered(v, path, a) == registered(v, path, b),
{
}

/// A specific configuration that excludes the default rules holds exactly
/// the rules of its own tree, so no rule it did not author or inherit.
pub proof fn lemma_exclusion(roots: Seq<ConfigView>, children: Seq<ConfigView>, i: int)
    requires
        roots.len() >= 1,
        0 <= i < roots.len() - 1,
        roots[i + 1].exclude_default_matches,
    ensures
        resolve_spec(roots, children).specific[i].exclude_default_matches,
        resolve_spec(roots, children).specific[i].matches == reduce_root(roots[i + 1], children).matches,
        forall|k: int| 0 <= k < resolve_spec(roots, children).specific[i].matches.len()
            ==> reduce_root(roots[i + 1], children).matches.contains(
                #[trigger] resolve_spec(roots, children).specific[i].matches[k],
            ),
{
    let m = reduce_root(roots[i + 1], children).matches;
    assert(roots.skip(1)[i] == roots[i + 1]);
    assert forall|k: int| 0 <= k < m.len() implies m.contains(#[trigger] m[k]) by {}
}

/// Resolution keeps every name: the default configuration and each specific
/// one carry the name of the root document they come from.
pub proof fn lemma_resolution_keeps_names(roots: Seq<ConfigView>, children: Seq<ConfigView>)
    requires
        roots.len() >= 1,
    ensures
        resolve_spec(roots, children).default.name == roots[0].name,
        resolve_spec(roots, children).specific.len() == roots.len() - 1,
        forall|i: int| 0 <= i < roots.len() - 1
            ==> (#[trigger] resolve_spec(roots, children).specific[i]).name == roots[i + 1].name,
{
    assert forall|i: int| 0 <= i < roots.len() - 1
        implies (#[trigger] resolve_spec(roots, children).specific[i]).name == roots[i + 1].name by {
        assert(roots.skip(1)[i] == roots[i + 1]);
    }
}

/// A root document that declares no name is found among the specific
/// configurations under its path.
pub proof fn lemma_name_defaults_to_path(v: IndexView, path: Seq<char>, c: ConfigView)
    requires
        v.roots.len() >= 1,
        c.name == "default"@,
        is_root(c),
    ensures
        resolve_spec(registered(v, path, c).roots, registered(v, path, c).children).specific[v.roots.len() - 1].name
            == path,
{
    let w = registered(v, path, c);
    lemma_resolution_keeps_names(w.roots, w.children);
    assert(w.roots[v.roots.len() as int] == ConfigView { name: path, ..c });
}

} // verus!
