use vstd::prelude::*;

use crate::config_set::names_of;
use crate::rules::{extend_with_inherited, merge_rules, rules_of, Match, Rule};

verus! {

/// A modifier key; a double press of the toggle key switches expansion on or off.
#[derive(Clone, Copy, Debug, PartialEq, Eq, Structural)]
pub enum KeyModifier {
    CTRL,
    SHIFT,
    ALT,
    META,
    BACKSPACE,
    OFF,
}

impl Default for KeyModifier {
    fn default() -> (r: KeyModifier)
        ensures
            r == KeyModifier::ALT,
    {
        KeyModifier::ALT
    }
}

/// How expanded text reaches the focused application.
#[derive(Clone, Copy, Debug, PartialEq, Eq, Structural)]
pub enum BackendType {
    Inject,
    Clipboard,
}

impl BackendType {
    /// The backend used when a document chooses none: key injection works well
    /// everywhere but on Linux, where the clipboard is the safer choice.
    pub fn platform_default(linux: bool) -> (r: BackendType)
        ensures
            r == (if linux { BackendType::Clipboard } else { BackendType::Inject }),
    {
        if linux {
            BackendType::Clipboard
        } else {
            BackendType::Inject
        }
    }
}

pub fn default_name() -> (r: String)
    ensures
        r@ == "default"@,
{
    "default".to_owned()
}

/// The parent value that marks a document as the root of its tree.
pub fn default_parent() -> (r: String)
    ensures
        r@ == "self"@,
{
    "self".to_owned()
}

pub fn default_filter_title() -> (r: String)
    ensures
        r@ == Seq::<char>::empty(),
{
    String::new()
}

pub fn default_filter_class() -> (r: String)
    ensures
        r@ == Seq::<char>::empty(),
{
    String::new()
}

pub fn default_filter_exec() -> (r: String)
    ensures
        r@ == Seq::<char>::empty(),
{
    String::new()
}

pub fn default_disabled() -> (r: bool)
    ensures
        r == false,
{
    false
}

pub fn default_log_level() -> (r: i32)
    ensures
        r == 0,
{
    0
}

pub fn default_ipc_server_port() -> (r: i32)
    ensures
        r == 34982,
{
    34982
}

pub fn default_use_system_agent() -> (r: bool)
    ensures
        r == true,
{
    true
}

pub fn default_force_alternative_paste_shortcut() -> (r: bool)
    ensures
        r == false,
{
    false
}

pub fn default_config_caching_interval() -> (r: i32)
    ensures
        r == 800,
{
    800
}

/// Space, comma, period, carriage return, line feed and SYN (code 22).
pub open spec fn word_separators_spec() -> Seq<char> {
    seq![' ', ',', '.', '\r', '\n', '\u{16}']
}

pub fn default_word_separators() -> (r: Vec<char>)
    ensures
        r@ == word_separators_spec(),
{
    let r = vec![' ', ',', '.', '\r', '\n', '\u{16}'];
    proof {
        assert(r@ =~= word_separators_spec());
    }
    r
}

pub fn default_toggle_interval() -> (r: u32)
    ensures
        r == 230,
{
    230
}

pub fn default_backspace_limit() -> (r: i32)
    ensures
        r == 3,
{
    3
}

pub fn default_exclude_default_matches() -> (r: bool)
    ensures
        r == false,
{
    false
}

pub fn default_matches() -> (r: Vec<Match>)
    ensures
        r@.len() == 0,
{
    Vec::new()
}

/// Whether a file with extension `ext` is a configuration document: the
/// extension must be `yml` exactly, in lower case.
pub fn is_config_extension(ext: &str) -> (r: bool)
    ensures
        r == (ext@ == "yml"@),
{
    let accepted = "yml".to_owned();
    ext.to_owned() == accepted
}

/// One configuration document, with every field the document left out at
/// its default.
#[derive(Clone, Debug)]
pub struct Configs {
    pub name: String,
    pub parent: String,
    pub filter_title: String,
    pub filter_class: String,
    pub filter_exec: String,
    pub disabled: bool,
    pub log_level: i32,
    pub ipc_server_port: i32,
    pub use_system_agent: bool,
    pub config_caching_interval: i32,
    pub word_separators: Vec<char>,
    pub toggle_key: KeyModifier,
    pub toggle_interval: u32,
    pub backspace_limit: i32,
    pub backend: BackendType,
    pub force_alternative_paste_shortcut: bool,
    pub exclude_default_matches: bool,
    pub matches: Vec<Match>,
}

/// The mathematical model of [`Configs`].
pub struct ConfigView {
    pub name: Seq<char>,
    pub parent: Seq<char>,
    pub filter_title: Seq<char>,
    pub filter_class: Seq<char>,
    pub filter_exec: Seq<char>,
    pub disabled: bool,
    pub log_level: i32,
    pub ipc_server_port: i32,
    pub use_system_agent: bool,
    pub config_caching_interval: i32,
    pub word_separators: Seq<char>,
    pub toggle_key: KeyModifier,
    pub toggle_interval: u32,
    pub backspace_limit: i32,
    pub backend: BackendType,
    pub force_alternative_paste_shortcut: bool,
    pub exclude_default_matches: bool,
    pub matches: Seq<Rule>,
}

impl View for Configs {
    type V = ConfigView;

    open spec fn view(&self) -> ConfigView {
        ConfigView {
            name: self.name@,
            parent: self.parent@,
            filter_title: self.filter_title@,
            filter_class: self.filter_class@,
            filter_exec: self.filter_exec@,
            disabled: self.disabled,
            log_level: self.log_level,
            ipc_server_port: self.ipc_server_port,
            use_system_agent: self.use_system_agent,
            config_caching_interval: self.config_caching_interval,
            word_separators: self.word_separators@,
            toggle_key: self.toggle_key,
            toggle_interval: self.toggle_interval,
            backspace_limit: self.backspace_limit,
            backend: self.backend,
            force_alternative_paste_shortcut: self.force_alternative_paste_shortcut,
            exclude_default_matches: self.exclude_default_matches,
            matches: rules_of(self.matches@),
        }
    }
}

/// `c` with its rules replaced by `rules`, every other field kept.
pub open spec fn with_rules(c: ConfigView, rules: Seq<Rule>) -> ConfigView {
    ConfigView { matches: rules, ..c }
}

/// Whether every field reserved to the default document holds its default.
pub open spec fn reserved_fields_at_default(c: ConfigView) -> bool {
    &&& c.config_caching_interval == 800
    &&& c.log_level == 0
    &&& c.toggle_key == KeyModifier::ALT
    &&& c.toggle_interval == 230
    &&& c.backspace_limit == 3
    &&& c.ipc_server_port == 34982
    &&& c.use_system_agent == true
}

/// The names of the reserved fields of `c` that differ from their default,
/// in declaration order.
pub open spec fn reserved_field_violations_spec(c: ConfigView) -> Seq<Seq<char>> {
    let s0 = Seq::<Seq<char>>::empty();
    let s1 = if c.config_caching_interval != 800 { s0.push("config_caching_interval"@) } else { s0 };
    let s2 = if c.log_level != 0 { s1.push("log_level"@) } else { s1 };
    let s3 = if c.toggle_key != KeyModifier::ALT { s2.push("toggle_key"@) } else { s2 };
    let s4 = if c.toggle_interval != 230 { s3.push("toggle_interval"@) } else { s3 };
    let s5 = if c.backspace_limit != 3 { s4.push("backspace_limit"@) } else { s4 };
    let s6 = if c.ipc_server_port != 34982 { s5.push("ipc_server_port"@) } else { s5 };
    if c.use_system_agent != true { s6.push("use_system_agent"@) } else { s6 }
}

fn push_name(names: &mut Vec<String>, name: &str)
    ensures
        names_of(final(names)@) == names_of(old(names)@).push(name@),
{
    names.push(name.to_owned());
    proof {
        assert(names_of(final(names)@) =~= names_of(old(names)@).push(name@));
    }
}

/// Clears `result` when `field` differs from its default value `def_value`.
pub fn validate_field(result: &mut bool, field: i64, def_value: i64)
    ensures
        *final(result) == (*old(result) && field == def_value),
{
    if field != def_value {
        *result = false;
    }
}

impl Configs {
    /// A document that declares nothing: every field at its default, the
    /// backend given as the platform's default.
    pub fn new(backend: BackendType) -> (r: Configs)
        ensures
            r@.name == "default"@,
            r@.parent == "self"@,
            r@.filter_title.len() == 0,
            r@.filter_class.len() == 0,
            r@.filter_exec.len() == 0,
            r@.disabled == false,
            r@.word_separators == word_separators_spec(),
            r@.backend == backend,
            r@.force_alternative_paste_shortcut == false,
            r@.exclude_default_matches == false,
            r@.matches.len() == 0,
            reserved_fields_at_default(r@),
    {
        Configs {
            name: default_name(),
            parent: default_parent(),
            filter_title: default_filter_title(),
            filter_class: default_filter_class(),
            filter_exec: default_filter_exec(),
            disabled: default_disabled(),
            log_level: default_log_level(),
            ipc_server_port: default_ipc_server_port(),
            use_system_agent: default_use_system_agent(),
            config_caching_interval: default_config_caching_interval(),
            word_separators: default_word_separators(),
            toggle_key: KeyModifier::default(),
            toggle_interval: default_toggle_interval(),
            backspace_limit: default_backspace_limit(),
            backend,
            force_alternative_paste_shortcut: default_force_alternative_paste_shortcut(),
            exclude_default_matches: default_exclude_default_matches(),
            matches: default_matches(),
        }
    }

    /// Whether this document, which is not the default one, leaves every field
    /// reserved to the default document at its default value. All the fields
    /// are checked, not only up to the first one that differs.
    pub fn validate_user_defined_config(&self) -> (r: bool)
        ensures
            r == reserved_fields_at_default(self@),
    {
        let mut result = true;
        validate_field(&mut result, self.config_caching_interval as i64, default_config_caching_interval() as i64);
        validate_field(&mut result, self.log_level as i64, default_log_level() as i64);
        if self.toggle_key != KeyModifier::default() {
            result = false;
        }
        validate_field(&mut result, self.toggle_interval as i64, default_toggle_interval() as i64);
        validate_field(&mut result, self.backspace_limit as i64, default_backspace_limit() as i64);
        validate_field(&mut result, self.ipc_server_port as i64, default_ipc_server_port() as i64);
        if self.use_system_agent != default_use_system_agent() {
            result = false;
        }
        result
    }

    /// The names of the fields reserved to the default document that this
    /// document sets to a value other than their default; empty exactly when
    /// the document passes validation.
    pub fn reserved_field_violations(&self) -> (r: Vec<String>)
        ensures
            names_of(r@) == reserved_field_violations_spec(self@),
            r@.len() == 0 <==> reserved_fields_at_default(self@),
    {
        let mut r: Vec<String> = Vec::new();
        proof {
            assert(names_of(r@) =~= Seq::<Seq<char>>::empty());
        }
        if self.config_caching_interval != default_config_caching_interval() {
            push_name(&mut r, "config_caching_interval");
        }
        if self.log_level != default_log_level() {
            push_name(&mut r, "log_level");
        }
        if self.toggle_key != KeyModifier::default() {
            push_name(&mut r, "toggle_key");
        }
        if self.toggle_interval != default_toggle_interval() {
            push_name(&mut r, "toggle_interval");
        }
        if self.backspace_limit != default_backspace_limit() {
            push_name(&mut r, "backspace_limit");
        }
        if self.ipc_server_port != default_ipc_server_port() {
            push_name(&mut r, "ipc_server_port");
        }
        if self.use_system_agent != default_use_system_agent() {
            push_name(&mut r, "use_system_agent");
        }
        proof {
            assert(names_of(r@).len() == r@.len());
        }
        r
    }

    /// Merges the rules of a child document into this one: the child's rules
    /// come first, followed by the rules of this document whose trigger the
    /// child does not define. No other field changes.
    pub fn merge_config(&mut self, new_config: Configs)
        ensures
            final(self)@ == with_rules(old(self)@, merge_rules(new_config@.matches, old(self)@.matches)),
    {
        let mut merged = new_config.matches;
        extend_with_inherited(&mut merged, &self.matches);
        self.matches = merged;
    }

    /// Appends the rules of `default` whose trigger this document does not
    /// define. No other field changes.
    pub fn merge_default(&mut self, default: &Configs)
        ensures
            final(self)@ == with_rules(old(self)@, merge_rules(old(self)@.matches, default@.matches)),
    {
        extend_with_inherited(&mut self.matches, &default.matches);
    }
}

} // verus!
