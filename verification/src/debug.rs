//! Debug adapter settings of a language, and how the editor picks an
//! adapter and its launch templates.

use vstd::prelude::*;

verus! {

/// The name of a debug adapter.
#[derive(Debug, Clone)]
pub struct DebugAdapterName(pub String);

/// How to start a debug adapter.
#[derive(Debug, Clone)]
pub struct DebugAdapterConfig {
    pub transport: String,
    pub command: String,
    pub args: Vec<String>,
    pub port_arg: Option<String>,
    pub quirks: DebuggerQuirks,
}

/// Workarounds for the differences between adapters.
#[derive(Debug, Clone, Copy, PartialEq, Eq, Structural, Default)]
pub struct DebuggerQuirks {
    pub absolute_paths: bool,
}

/// The name of a launch template.
#[derive(Debug, Clone)]
pub struct DebugTemplateName(pub String);

/// A launch template. With no adapter names it serves every adapter of the
/// language.
#[derive(Debug, Clone)]
pub struct DebugTemplateConfig {
    pub debug_adapter_names: Vec<DebugAdapterName>,
    pub request: String,
    pub completion: Vec<DebugConfigCompletion>,
    pub args: Vec<(String, DebugArgumentValue)>,
}

#[derive(Debug, Clone)]
pub enum DebugConfigCompletion {
    Named(String),
    Advanced(AdvancedCompletion),
}

#[derive(Debug, Clone)]
pub struct AdvancedCompletion {
    pub name: Option<String>,
    pub completion: Option<String>,
    pub default: Option<String>,
}

#[derive(Debug, Clone)]
pub enum DebugArgumentValue {
    String(String),
    Array(Vec<String>),
    Boolean(bool),
}

/// The debug settings of a language: the adapters it lists, in order of
/// preference, and its launch templates.
#[derive(Debug, Clone)]
pub struct LanguageDebugConfig {
    pub debug_adapter_names: Vec<DebugAdapterName>,
    pub debug_templates: Vec<(DebugTemplateName, DebugTemplateConfig)>,
}

/// Why no adapter or template could be picked.
#[derive(Debug, Clone, PartialEq, Eq, Structural)]
pub enum DebugConfigError {
    /// The document has no language configuration.
    NoLanguageConfig,
    /// The language lists no debug adapter.
    NoAdapterListed,
    /// The adapter the language lists first has no configuration.
    NoAdapterConfig,
    /// No template serves the adapter.
    NoTemplates,
}

/// The number of seconds to wait on a debug adapter.
pub fn default_timeout() -> (t: u64)
    ensures
        t == 20,
{
    20
}

/// Index of the first configuration for adapter `name` (their number where there is none).
pub open spec fn config_index(configs: Seq<(DebugAdapterName, DebugAdapterConfig)>, name: Seq<char>) -> int
    decreases configs.len(),
{
    if configs.len() == 0 {
        0
    } else if configs[0].0.0@ == name {
        0
    } else {
        1 + config_index(configs.drop_first(), name)
    }
}

proof fn lemma_config_index(configs: Seq<(DebugAdapterName, DebugAdapterConfig)>, name: Seq<char>)
    ensures
        0 <= config_index(configs, name) <= configs.len(),
        config_index(configs, name) < configs.len() ==> configs[config_index(configs, name)].0.0@ == name,
        forall|j: int| 0 <= j < config_index(configs, name) ==> configs[j].0.0@ != name,
    decreases configs.len(),
{
    if configs.len() > 0 && configs[0].0.0@ != name {
        lemma_config_index(configs.drop_first(), name);
        assert forall|j: int| 0 <= j < config_index(configs, name) implies configs[j].0.0@ != name by {
            if j > 0 {
                assert(configs[j] == configs.drop_first()[j - 1]);
            }
        }
    }
}

/// The adapter a document is debugged with: the first one its language
/// lists, with its configuration.
pub fn select_debug_adapter<'names, 'configs>(
    language: Option<&'names LanguageDebugConfig>,
    configs: &'configs Vec<(DebugAdapterName, DebugAdapterConfig)>,
) -> (r: Result<(&'names DebugAdapterName, &'configs DebugAdapterConfig), DebugConfigError>)
    ensures
        language.is_none() ==> r == Err::<(&DebugAdapterName, &DebugAdapterConfig), _>(DebugConfigError::NoLanguageConfig),
        language matches Some(l) ==> {
            if l.debug_adapter_names@.len() == 0 {
                r == Err::<(&DebugAdapterName, &DebugAdapterConfig), _>(DebugConfigError::NoAdapterListed)
            } else {
                let name = l.debug_adapter_names@[0];
                let i = config_index(configs@, name.0@);
                if i < configs@.len() {
                    (r matches Ok(p) && *p.0 == name && *p.1 == configs@[i].1)
                } else {
                    r == Err::<(&DebugAdapterName, &DebugAdapterConfig), _>(DebugConfigError::NoAdapterConfig)
                }
            }
        },
{
    let l = match language {
        Some(l) => l,
        None => return Err(DebugConfigError::NoLanguageConfig),
    };
    if l.debug_adapter_names.len() == 0 {
        return Err(DebugConfigError::NoAdapterListed);
    }
    let debug_adapter_name = &l.debug_adapter_names[0];
    proof {
        lemma_config_index(configs@, debug_adapter_name.0@);
    }
    let mut i: usize = 0;
    while i < configs.len()
        invariant
            language == Some(l),
            l.debug_adapter_names@.len() > 0,
            *debug_adapter_name == l.debug_adapter_names@[0],
            0 <= i <= configs@.len(),
            forall|j: int| 0 <= j < i ==> configs@[j].0.0@ != debug_adapter_name.0@,
            0 <= config_index(configs@, debug_adapter_name.0@) <= configs@.len(),
            config_index(configs@, debug_adapter_name.0@) < configs@.len() ==> configs@[config_index(
                configs@,
                debug_adapter_name.0@,
            )].0.0@ == debug_adapter_name.0@,
            forall|j: int| 0 <= j < config_index(configs@, debug_adapter_name.0@) ==> configs@[j].0.0@ != debug_adapter_name.0@,
        decreases configs.len() - i,
    {
        if configs[i].0.0 == debug_adapter_name.0 {
            return Ok((debug_adapter_name, &configs[i].1));
        }
        i = i + 1;
    }
    Err(DebugConfigError::NoAdapterConfig)
}

/// Whether template `t` serves adapter `name`: it names no adapter, or names it.
pub open spec fn serves(t: DebugTemplateConfig, name: Seq<char>) -> bool {
    t.debug_adapter_names@.len() == 0 || exists|i: int|
        0 <= i < t.debug_adapter_names@.len() && #[trigger] t.debug_adapter_names@[i].0@ == name
}

/// The templates of `ts` that serve adapter `name`, in their order.
pub open spec fn serving(ts: Seq<(DebugTemplateName, DebugTemplateConfig)>, name: Seq<char>) -> Seq<(DebugTemplateName, DebugTemplateConfig)>
    decreases ts.len(),
{
    if ts.len() == 0 {
        ts
    } else {
        let rest = serving(ts.drop_last(), name);
        if serves(ts.last().1, name) {
            rest.push(ts.last())
        } else {
            rest
        }
    }
}

/// Whether template `t` serves adapter `name`.
fn template_serves(t: &DebugTemplateConfig, name: &DebugAdapterName) -> (b: bool)
    ensures
        b == serves(*t, name.0@),
{
    let n = t.debug_adapter_names.len();
    if n == 0 {
        return true;
    }
    let mut i: usize = 0;
    while i < n
        invariant
            n == t.debug_adapter_names@.len(),
            0 <= i <= n,
            forall|j: int| 0 <= j < i ==> t.debug_adapter_names@[j].0@ != name.0@,
        decreases n - i,
    {
        if t.debug_adapter_names[i].0 == name.0 {
            return true;
        }
        i = i + 1;
    }
    false
}

/// The launch templates of a document's language that serve adapter
/// `debug_adapter_name`, in the order the language lists them.
pub fn get_debug_templates<'a>(
    language: Option<&'a LanguageDebugConfig>,
    debug_adapter_name: &DebugAdapterName,
) -> (r: Result<Vec<&'a (DebugTemplateName, DebugTemplateConfig)>, DebugConfigError>)
    ensures
        language.is_none() ==> (r matches Err(e) && e == DebugConfigError::NoLanguageConfig),
        language matches Some(l) ==> {
            let s = serving(l.debug_templates@, debug_adapter_name.0@);
            if s.len() == 0 {
                (r matches Err(e) && e == DebugConfigError::NoTemplates)
            } else {
                (r matches Ok(v) && v@.len() == s.len() && forall|i: int| 0 <= i < s.len() ==> *#[trigger] v@[i] == s[i])
            }
        },
{
    let l = match language {
        Some(l) => l,
        None => return Err(DebugConfigError::NoLanguageConfig),
    };
    let ghost ts = l.debug_templates@;
    let mut debug_templates: Vec<&'a (DebugTemplateName, DebugTemplateConfig)> = Vec::new();
    let mut i: usize = 0;
    while i < l.debug_templates.len()
        invariant
            ts == l.debug_templates@,
            0 <= i <= ts.len(),
            debug_templates@.len() == serving(ts.take(i as int), debug_adapter_name.0@).len(),
            forall|j: int|
                0 <= j < debug_templates@.len() ==> *#[trigger] debug_templates@[j] == serving(
                    ts.take(i as int),
                    debug_adapter_name.0@,
                )[j],
        decreases ts.len() - i,
    {
        proof {
            assert(ts.take(i + 1).drop_last() =~= ts.take(i as int));
        }
        let t = &l.debug_templates[i];
        if template_serves(&t.1, debug_adapter_name) {
            debug_templates.push(t);
        }
        i = i + 1;
    }
    proof {
        assert(ts.take(i as int) =~= ts);
    }
    if debug_templates.len() == 0 {
        return Err(DebugConfigError::NoTemplates);
    }
    Ok(debug_templates)
}

} // verus!
