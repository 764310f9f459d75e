//! Configuration: the recognized settings, their defaults, and the parsing
//! of a pushed or pulled configuration value.
//!
//! A malformed configuration — one that is not an object, or one whose
//! recognized key carries a value of the wrong type — is rejected whole;
//! the caller warns the client and keeps the previous settings. Unknown
//! keys are ignored.

use vstd::prelude::*;

verus! {

/// The recognized settings.
pub struct Options {
    pub build_on_save: bool,
    pub build_executable: Option<Vec<char>>,
    pub build_args: Option<Vec<Vec<char>>>,
    pub aux_directory: Option<Vec<char>>,
    pub forward_search_after: bool,
    pub forward_search_executable: Option<Vec<char>>,
    pub forward_search_args: Option<Vec<Vec<char>>>,
    pub chktex_on_open_and_save: bool,
    pub chktex_on_edit: bool,
    pub diagnostics_delay: u64,
    pub allowed_patterns: Vec<Vec<char>>,
    pub ignored_patterns: Vec<Vec<char>>,
    pub latex_formatter: Option<Vec<char>>,
    pub bibtex_formatter: Option<Vec<char>>,
    pub formatter_line_length: u32,
}

/// The spec-level image of the settings.
pub ghost struct OptionsView {
    pub build_on_save: bool,
    pub build_executable: Option<Seq<char>>,
    pub build_args: Option<Seq<Seq<char>>>,
    pub aux_directory: Option<Seq<char>>,
    pub forward_search_after: bool,
    pub forward_search_executable: Option<Seq<char>>,
    pub forward_search_args: Option<Seq<Seq<char>>>,
    pub chktex_on_open_and_save: bool,
    pub chktex_on_edit: bool,
    pub diagnostics_delay: u64,
    pub allowed_patterns: Seq<Seq<char>>,
    pub ignored_patterns: Seq<Seq<char>>,
    pub latex_formatter: Option<Seq<char>>,
    pub bibtex_formatter: Option<Seq<char>>,
    pub formatter_line_length: u32,
}

pub open spec fn view_str_opt(v: &Option<Vec<char>>) -> Option<Seq<char>> {
    match v {
        Some(s) => Some(s@),
        None => None,
    }
}

pub open spec fn view_list(v: &Vec<Vec<char>>) -> Seq<Seq<char>> {
    v@.map_values(|s: Vec<char>| s@)
}

pub open spec fn view_list_opt(v: &Option<Vec<Vec<char>>>) -> Option<Seq<Seq<char>>> {
    match v {
        Some(l) => Some(view_list(l)),
        None => None,
    }
}

impl View for Options {
    type V = OptionsView;

    open spec fn view(&self) -> OptionsView {
        OptionsView {
            build_on_save: self.build_on_save,
            build_executable: view_str_opt(&self.build_executable),
            build_args: view_list_opt(&self.build_args),
            aux_directory: view_str_opt(&self.aux_directory),
            forward_search_after: self.forward_search_after,
            forward_search_executable: view_str_opt(&self.forward_search_executable),
            forward_search_args: view_list_opt(&self.forward_search_args),
            chktex_on_open_and_save: self.chktex_on_open_and_save,
            chktex_on_edit: self.chktex_on_edit,
            diagnostics_delay: self.diagnostics_delay,
            allowed_patterns: view_list(&self.allowed_patterns),
            ignored_patterns: view_list(&self.ignored_patterns),
            latex_formatter: view_str_opt(&self.latex_formatter),
            bibtex_formatter: view_str_opt(&self.bibtex_formatter),
            formatter_line_length: self.formatter_line_length,
        }
    }
}

/// The default settings: nothing configured, a diagnostics delay of 300
/// milliseconds, lines formatted to 80 columns.
pub open spec fn default_options() -> OptionsView {
    OptionsView {
        build_on_save: false,
        build_executable: None,
        build_args: None,
        aux_directory: None,
        forward_search_after: false,
        forward_search_executable: None,
        forward_search_args: None,
        chktex_on_open_and_save: false,
        chktex_on_edit: false,
        diagnostics_delay: 300,
        allowed_patterns: Seq::empty(),
        ignored_patterns: Seq::empty(),
        latex_formatter: None,
        bibtex_formatter: None,
        formatter_line_length: 80,
    }
}

impl Options {
    pub fn new_default() -> (o: Options)
        ensures
            o@ == default_options(),
    {
        let o = Options {
            build_on_save: false,
            build_executable: None,
            build_args: None,
            aux_directory: None,
            forward_search_after: false,
            forward_search_executable: None,
            forward_search_args: None,
            chktex_on_open_and_save: false,
            chktex_on_edit: false,
            diagnostics_delay: 300,
            allowed_patterns: Vec::new(),
            ignored_patterns: Vec::new(),
            latex_formatter: None,
            bibtex_formatter: None,
            formatter_line_length: 80,
        };
        proof {
            assert(view_list(&o.allowed_patterns) =~= Seq::<Seq<char>>::empty());
            assert(view_list(&o.ignored_patterns) =~= Seq::<Seq<char>>::empty());
        }
        o
    }
}

/// One settings value as the wire carries it, flattened to the shapes the
/// recognized keys can take.
pub enum ConfigScalar {
    Null,
    Bool(bool),
    Int(i64),
    Str(Vec<char>),
    StrList(Vec<Vec<char>>),
    Other,
}

/// The spec-level image of a settings value.
pub ghost enum ConfigScalarView {
    Null,
    Bool(bool),
    Int(i64),
    Str(Seq<char>),
    StrList(Seq<Seq<char>>),
    Other,
}

impl View for ConfigScalar {
    type V = ConfigScalarView;

    open spec fn view(&self) -> ConfigScalarView {
        match self {
            ConfigScalar::Null => ConfigScalarView::Null,
            ConfigScalar::Bool(b) => ConfigScalarView::Bool(*b),
            ConfigScalar::Int(i) => ConfigScalarView::Int(*i),
            ConfigScalar::Str(s) => ConfigScalarView::Str(s@),
            ConfigScalar::StrList(l) => ConfigScalarView::StrList(view_list(l)),
            ConfigScalar::Other => ConfigScalarView::Other,
        }
    }
}

/// One entry of a configuration object, its key written dotted, as in
/// `build.onSave`.
pub struct ConfigEntry {
    pub key: Vec<char>,
    pub value: ConfigScalar,
}

pub ghost struct ConfigEntryView {
    pub key: Seq<char>,
    pub value: ConfigScalarView,
}

impl View for ConfigEntry {
    type V = ConfigEntryView;

    open spec fn view(&self) -> ConfigEntryView {
        ConfigEntryView { key: self.key@, value: self.value@ }
    }
}

/// A pushed or pulled configuration: an object of entries, or anything
/// else, which is malformed.
pub enum ConfigValue {
    Object(Vec<ConfigEntry>),
    NotObject,
}

pub ghost enum ConfigValueView {
    Object(Seq<ConfigEntryView>),
    NotObject,
}

impl View for ConfigValue {
    type V = ConfigValueView;

    open spec fn view(&self) -> ConfigValueView {
        match self {
            ConfigValue::Object(es) => ConfigValueView::Object(
                es@.map_values(|e: ConfigEntry| e@),
            ),
            ConfigValue::NotObject => ConfigValueView::NotObject,
        }
    }
}

/// Applies one entry: a recognized key with the right shape sets its field;
/// a recognized key with the wrong shape makes the whole configuration
/// malformed; an unknown key changes nothing.
pub open spec fn apply_entry_spec(o: OptionsView, e: ConfigEntryView) -> Option<OptionsView> {
    if e.key == "build.onSave"@ {
        match e.value {
            ConfigScalarView::Bool(b) => Some(OptionsView { build_on_save: b, ..o }),
            _ => None,
        }
    } else if e.key == "build.executable"@ {
        match e.value {
            ConfigScalarView::Str(s) => Some(OptionsView { build_executable: Some(s), ..o }),
            _ => None,
        }
    } else if e.key == "build.args"@ {
        match e.value {
            ConfigScalarView::StrList(l) => Some(OptionsView { build_args: Some(l), ..o }),
            _ => None,
        }
    } else if e.key == "build.auxDirectory"@ {
        match e.value {
            ConfigScalarView::Str(s) => Some(OptionsView { aux_directory: Some(s), ..o }),
            _ => None,
        }
    } else if e.key == "build.forwardSearchAfter"@ {
        match e.value {
            ConfigScalarView::Bool(b) => Some(OptionsView { forward_search_after: b, ..o }),
            _ => None,
        }
    } else if e.key == "forwardSearch.executable"@ {
        match e.value {
            ConfigScalarView::Str(s) => Some(
                OptionsView { forward_search_executable: Some(s), ..o },
            ),
            _ => None,
        }
    } else if e.key == "forwardSearch.args"@ {
        match e.value {
            ConfigScalarView::StrList(l) => Some(
                OptionsView { forward_search_args: Some(l), ..o },
            ),
            _ => None,
        }
    } else if e.key == "chktex.onOpenAndSave"@ {
        match e.value {
            ConfigScalarView::Bool(b) => Some(OptionsView { chktex_on_open_and_save: b, ..o }),
            _ => None,
        }
    } else if e.key == "chktex.onEdit"@ {
        match e.value {
            ConfigScalarView::Bool(b) => Some(OptionsView { chktex_on_edit: b, ..o }),
            _ => None,
        }
    } else if e.key == "diagnosticsDelay"@ {
        match e.value {
            ConfigScalarView::Int(i) => if 0 <= i {
                Some(OptionsView { diagnostics_delay: i as u64, ..o })
            } else {
                None
            },
            _ => None,
        }
    } else if e.key == "symbols.allowedPatterns"@ {
        match e.value {
            ConfigScalarView::StrList(l) => Some(OptionsView { allowed_patterns: l, ..o }),
            _ => None,
        }
    } else if e.key == "symbols.ignoredPatterns"@ {
        match e.value {
            ConfigScalarView::StrList(l) => Some(OptionsView { ignored_patterns: l, ..o }),
            _ => None,
        }
    } else if e.key == "latexFormatter"@ {
        match e.value {
            ConfigScalarView::Str(s) => Some(OptionsView { latex_formatter: Some(s), ..o }),
            _ => None,
        }
    } else if e.key == "bibtexFormatter"@ {
        match e.value {
            ConfigScalarView::Str(s) => Some(OptionsView { bibtex_formatter: Some(s), ..o }),
            _ => None,
        }
    } else if e.key == "formatterLineLength"@ {
        match e.value {
            ConfigScalarView::Int(i) => if 0 <= i <= u32::MAX {
                Some(OptionsView { formatter_line_length: i as u32, ..o })
            } else {
                None
            },
            _ => None,
        }
    } else {
        Some(o)
    }
}

/// Applies the entries in order; one malformed entry rejects them all.
pub open spec fn apply_entries_spec(o: OptionsView, es: Seq<ConfigEntryView>) -> Option<
    OptionsView,
>
    decreases es.len(),
{
    if es.len() == 0 {
        Some(o)
    } else {
        match apply_entry_spec(o, es[0]) {
            Some(o2) => apply_entries_spec(o2, es.drop_first()),
            None => None,
        }
    }
}

pub proof fn lemma_apply_entries_snoc(o: OptionsView, es: Seq<ConfigEntryView>, e: ConfigEntryView)
    ensures
        apply_entries_spec(o, es.push(e)) == (match apply_entries_spec(o, es) {
            Some(o2) => apply_entry_spec(o2, e),
            None => None::<OptionsView>,
        }),
    decreases es.len(),
{
    if es.len() == 0 {
        assert(es.push(e).drop_first() =~= es);
        assert(es.push(e)[0] == e);
        match apply_entry_spec(o, e) {
            Some(o2) => {
                assert(apply_entries_spec(o, es.push(e)) == apply_entries_spec(o2, es));
                assert(apply_entries_spec(o2, es) == Some(o2));
                assert(apply_entries_spec(o, es) == Some(o));
            },
            None => {
                assert(apply_entries_spec(o, es.push(e)) is None);
            },
        }
    } else {
        assert(es.push(e)[0] == es[0]);
        assert(es.push(e).drop_first() =~= es.drop_first().push(e));
        match apply_entry_spec(o, es[0]) {
            Some(o2) => {
                lemma_apply_entries_snoc(o2, es.drop_first(), e);
                assert(apply_entries_spec(o, es.push(e)) == apply_entries_spec(
                    o2,
                    es.drop_first().push(e),
                ));
                assert(apply_entries_spec(o, es) == apply_entries_spec(o2, es.drop_first()));
            },
            None => {
                assert(apply_entries_spec(o, es.push(e)) is None);
                assert(apply_entries_spec(o, es) is None);
            },
        }
    }
}

/// What parsing a configuration yields: the settings read from an object,
/// or nothing when the configuration is malformed.
pub open spec fn parse_options_spec(c: ConfigValueView) -> Option<OptionsView> {
    match c {
        ConfigValueView::Object(es) => apply_entries_spec(default_options(), es),
        ConfigValueView::NotObject => None,
    }
}

fn dup_chars(v: &Vec<char>) -> (r: Vec<char>)
    ensures
        r@ == v@,
{
    v.clone()
}

fn dup_list(v: &Vec<Vec<char>>) -> (r: Vec<Vec<char>>)
    ensures
        view_list(&r) == view_list(v),
{
    let mut out: Vec<Vec<char>> = Vec::new();
    let mut i: usize = 0;
    while i < v.len()
        invariant
            i <= v@.len(),
            out@.len() == i,
            forall|j: int| 0 <= j < i ==> out@[j]@ == #[trigger] v@[j]@,
        decreases v.len() - i,
    {
        out.push(v[i].clone());
        i = i + 1;
    }
    proof {
        assert(view_list(&out) =~= view_list(v));
    }
    out
}

/// Applies one entry to the settings; false means the entry is malformed.
fn apply_entry(o: &mut Options, e: &ConfigEntry) -> (ok: bool)
    ensures
        match apply_entry_spec(old(o)@, e@) {
            Some(o2) => ok && final(o)@ == o2,
            None => !ok,
        },
{
    let key = &e.key;
    if crate::document::chars_eq_str(key, "build.onSave") {
        match &e.value {
            ConfigScalar::Bool(b) => {
                o.build_on_save = *b;
                true
            },
            _ => false,
        }
    } else if crate::document::chars_eq_str(key, "build.executable") {
        match &e.value {
            ConfigScalar::Str(s) => {
                o.build_executable = Some(dup_chars(s));
                true
            },
            _ => false,
        }
    } else if crate::document::chars_eq_str(key, "build.args") {
        match &e.value {
            ConfigScalar::StrList(l) => {
                o.build_args = Some(dup_list(l));
                true
            },
            _ => false,
        }
    } else if crate::document::chars_eq_str(key, "build.auxDirectory") {
        match &e.value {
            ConfigScalar::Str(s) => {
                o.aux_directory = Some(dup_chars(s));
                true
            },
            _ => false,
        }
    } else if crate::document::chars_eq_str(key, "build.forwardSearchAfter") {
        match &e.value {
            ConfigScalar::Bool(b) => {
                o.forward_search_after = *b;
                true
            },
            _ => false,
        }
    } else if crate::document::chars_eq_str(key, "forwardSearch.executable") {
        match &e.value {
            ConfigScalar::Str(s) => {
                o.forward_search_executable = Some(dup_chars(s));
                true
            },
            _ => false,
        }
    } else if crate::document::chars_eq_str(key, "forwardSearch.args") {
        match &e.value {
            ConfigScalar::StrList(l) => {
                o.forward_search_args = Some(dup_list(l));
                true
            },
            _ => false,
        }
    } else if crate::document::chars_eq_str(key, "chktex.onOpenAndSave") {
        match &e.value {
            ConfigScalar::Bool(b) => {
                o.chktex_on_open_and_save = *b;
                true
            },
            _ => false,
        }
    } else if crate::document::chars_eq_str(key, "chktex.onEdit") {
        match &e.value {
            ConfigScalar::Bool(b) => {
                o.chktex_on_edit = *b;
                true
            },
            _ => false,
        }
    } else if crate::document::chars_eq_str(key, "diagnosticsDelay") {
        match &e.value {
            ConfigScalar::Int(i) => {
                if *i >= 0 {
                    o.diagnostics_delay = *i as u64;
                    true
                } else {
                    false
                }
            },
            _ => false,
        }
    } else if crate::document::chars_eq_str(key, "symbols.allowedPatterns") {
        match &e.value {
            ConfigScalar::StrList(l) => {
                o.allowed_patterns = dup_list(l);
                true
            },
            _ => false,
        }
    } else if crate::document::chars_eq_str(key, "symbols.ignoredPatterns") {
        match &e.value {
            ConfigScalar::StrList(l) => {
                o.ignored_patterns = dup_list(l);
                true
            },
            _ => false,
        }
    } else if crate::document::chars_eq_str(key, "latexFormatter") {
        match &e.value {
            ConfigScalar::Str(s) => {
                o.latex_formatter = Some(dup_chars(s));
                true
            },
            _ => false,
        }
    } else if crate::document::chars_eq_str(key, "bibtexFormatter") {
        match &e.value {
            ConfigScalar::Str(s) => {
                o.bibtex_formatter = Some(dup_chars(s));
                true
            },
            _ => false,
        }
    } else if crate::document::chars_eq_str(key, "formatterLineLength") {
        match &e.value {
            ConfigScalar::Int(i) => {
                if *i >= 0 && *i <= u32::MAX as i64 {
                    o.formatter_line_length = *i as u32;
                    true
                } else {
                    false
                }
            },
            _ => false,
        }
    } else {
        true
    }
}

/// Parses a configuration. The settings read from a well-formed object, or
/// nothing when the configuration is malformed and the previous settings
/// are to be kept.
pub fn parse_options(c: &ConfigValue) -> (r: Option<Options>)
    ensures
        match r {
            Some(o) => parse_options_spec(c@) == Some(o@),
            None => parse_options_spec(c@) is None,
        },
{
    match c {
        ConfigValue::Object(es) => {
            let ghost evs = es@.map_values(|e: ConfigEntry| e@);
            let mut o = Options::new_default();
            let mut failed = false;
            let mut i: usize = 0;
            while i < es.len()
                invariant
                    i <= evs.len(),
                    evs == es@.map_values(|e: ConfigEntry| e@),
                    !failed ==> apply_entries_spec(default_options(), evs.subrange(0, i as int))
                        == Some(o@),
                    failed ==> apply_entries_spec(default_options(), evs.subrange(0, i as int))
                        is None,
                decreases es.len() - i,
            {
                proof {
                    assert(evs.subrange(0, i + 1) =~= evs.subrange(0, i as int).push(
                        evs[i as int],
                    ));
                    lemma_apply_entries_snoc(
                        default_options(),
                        evs.subrange(0, i as int),
                        evs[i as int],
                    );
                }
                if !failed {
                    let ok = apply_entry(&mut o, &es[i]);
                    if !ok {
                        failed = true;
                    }
                }
                i = i + 1;
            }
            proof {
                assert(evs.subrange(0, evs.len() as int) =~= evs);
            }
            if failed {
                None
            } else {
                Some(o)
            }
        },
        ConfigValue::NotObject => None,
    }
}

} // verus!
