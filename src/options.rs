use vstd::prelude::*;
use crate::abi_type::str_is;

verus! {

/// How unsigned integers are represented when the prover model is built.
#[derive(Debug, Clone, Copy, PartialEq, Eq, Structural)]
pub enum NumRepresentation {
    /// Bounded mathematical integers with explicit overflow checks.
    Int,
    /// Fixed-width bit-vectors.
    Bv,
    /// The model builder picks per function; the heuristic lives with the consumer.
    Auto,
}

impl NumRepresentation {
    pub fn integer_representation(self) -> (r: bool)
        ensures
            r == (self == NumRepresentation::Int),
    {
        matches!(self, NumRepresentation::Int)
    }

    pub fn bv_representation(self) -> (r: bool)
        ensures
            r == (self == NumRepresentation::Bv),
    {
        matches!(self, NumRepresentation::Bv)
    }

    pub fn auto_representation(self) -> (r: bool)
        ensures
            r == (self == NumRepresentation::Auto),
    {
        matches!(self, NumRepresentation::Auto)
    }
}

impl Default for NumRepresentation {
    fn default() -> (r: NumRepresentation)
        ensures
            r == NumRepresentation::Int,
    {
        NumRepresentation::Int
    }
}

/// A named simplification applied to extracted specifications before verification.
#[derive(Debug, Clone, Copy, PartialEq, Eq, Structural)]
pub enum SimplificationPass {
    Inline,
    Quantifier,
}

/// Options that govern how the verification model is built.
#[derive(Debug, Clone)]
pub struct ModelBuilderOptions {
    /// Ignore the "opaque" pragma on internal functions (those with no unknown callers) where
    /// the function spec has no property marked `[concrete]` or `[abstract]`.
    pub ignore_pragma_opaque_internal_only: bool,
    /// Ignore the "opaque" pragma on all function specs, under the same condition.
    pub ignore_pragma_opaque_when_possible: bool,
    /// Simplification passes, in execution order.
    pub simplification_pipeline: Vec<SimplificationPass>,
    /// Representation of unsigned integer types in the prover.
    pub num_repr: NumRepresentation,
}

/// The mathematical value of a `ModelBuilderOptions`.
pub struct OptionsModel {
    pub opaque_internal_only: bool,
    pub opaque_when_possible: bool,
    pub pipeline: Seq<SimplificationPass>,
    pub num_repr: NumRepresentation,
}

impl View for ModelBuilderOptions {
    type V = OptionsModel;

    open spec fn view(&self) -> OptionsModel {
        OptionsModel {
            opaque_internal_only: self.ignore_pragma_opaque_internal_only,
            opaque_when_possible: self.ignore_pragma_opaque_when_possible,
            pipeline: self.simplification_pipeline@,
            num_repr: self.num_repr,
        }
    }
}

pub open spec fn default_options() -> OptionsModel {
    OptionsModel {
        opaque_internal_only: false,
        opaque_when_possible: false,
        pipeline: Seq::empty(),
        num_repr: NumRepresentation::Int,
    }
}

impl Default for ModelBuilderOptions {
    fn default() -> (r: ModelBuilderOptions)
        ensures
            r@ == default_options(),
    {
        ModelBuilderOptions {
            ignore_pragma_opaque_internal_only: false,
            ignore_pragma_opaque_when_possible: false,
            simplification_pipeline: Vec::new(),
            num_repr: NumRepresentation::Int,
        }
    }
}

/// A value in a configuration document, as the loader sees it.
pub enum ConfigValue {
    Bool(bool),
    Name(String),
    Names(Vec<String>),
    /// Any value of another shape (a number, a table, null).
    Other,
}

pub enum ConfigValueModel {
    Bool(bool),
    Name(Seq<char>),
    Names(Seq<Seq<char>>),
    Other,
}

impl View for ConfigValue {
    type V = ConfigValueModel;

    open spec fn view(&self) -> ConfigValueModel {
        match self {
            ConfigValue::Bool(b) => ConfigValueModel::Bool(*b),
            ConfigValue::Name(n) => ConfigValueModel::Name(n@),
            ConfigValue::Names(ns) => ConfigValueModel::Names(ns@.map_values(|n: String| n@)),
            ConfigValue::Other => ConfigValueModel::Other,
        }
    }
}

/// One `key = value` entry of a configuration document.
pub struct ConfigField {
    pub key: String,
    pub value: ConfigValue,
}

pub struct FieldModel {
    pub key: Seq<char>,
    pub value: ConfigValueModel,
}

impl View for ConfigField {
    type V = FieldModel;

    open spec fn view(&self) -> FieldModel {
        FieldModel { key: self.key@, value: self.value@ }
    }
}

/// Why a configuration document was rejected; each names the offending key.
#[derive(Debug)]
pub enum ConfigError {
    UnknownField(String),
    DuplicateField(String),
    InvalidValue(String),
}

pub enum ConfigErrorModel {
    UnknownField(Seq<char>),
    DuplicateField(Seq<char>),
    InvalidValue(Seq<char>),
}

impl View for ConfigError {
    type V = ConfigErrorModel;

    open spec fn view(&self) -> ConfigErrorModel {
        match self {
            ConfigError::UnknownField(k) => ConfigErrorModel::UnknownField(k@),
            ConfigError::DuplicateField(k) => ConfigErrorModel::DuplicateField(k@),
            ConfigError::InvalidValue(k) => ConfigErrorModel::InvalidValue(k@),
        }
    }
}

/// The fields a configuration document may set.
#[derive(Clone, Copy, PartialEq, Eq, Structural)]
pub enum OptionField {
    OpaqueInternalOnly,
    OpaqueWhenPossible,
    Pipeline,
    NumRepr,
}

pub open spec fn option_field_of(key: Seq<char>) -> Option<OptionField> {
    if key == "ignore_pragma_opaque_internal_only"@ {
        Some(OptionField::OpaqueInternalOnly)
    } else if key == "ignore_pragma_opaque_when_possible"@ {
        Some(OptionField::OpaqueWhenPossible)
    } else if key == "simplification_pipeline"@ {
        Some(OptionField::Pipeline)
    } else if key == "num_repr"@ {
        Some(OptionField::NumRepr)
    } else {
        None
    }
}

pub open spec fn pass_of(name: Seq<char>) -> Option<SimplificationPass> {
    if name == "Inline"@ {
        Some(SimplificationPass::Inline)
    } else if name == "Quantifier"@ {
        Some(SimplificationPass::Quantifier)
    } else {
        None
    }
}

pub open spec fn num_repr_of(name: Seq<char>) -> Option<NumRepresentation> {
    if name == "Int"@ {
        Some(NumRepresentation::Int)
    } else if name == "Bv"@ {
        Some(NumRepresentation::Bv)
    } else if name == "Auto"@ {
        Some(NumRepresentation::Auto)
    } else {
        None
    }
}

/// The passes named by `names`, in order, or `None` if one name is no pass.
pub open spec fn passes_of(names: Seq<Seq<char>>) -> Option<Seq<SimplificationPass>>
    decreases names.len(),
{
    if names.len() == 0 {
        Some(Seq::empty())
    } else {
        match (passes_of(names.drop_last()), pass_of(names.last())) {
            (Some(ps), Some(p)) => Some(ps.push(p)),
            _ => None,
        }
    }
}

/// `opts` with `field` set from `value`, or `None` if the value has the wrong shape.
pub open spec fn set_field(opts: OptionsModel, field: OptionField, value: ConfigValueModel) -> Option<
    OptionsModel,
> {
    match (field, value) {
        (OptionField::OpaqueInternalOnly, ConfigValueModel::Bool(b)) => Some(
            OptionsModel { opaque_internal_only: b, ..opts },
        ),
        (OptionField::OpaqueWhenPossible, ConfigValueModel::Bool(b)) => Some(
            OptionsModel { opaque_when_possible: b, ..opts },
        ),
        (OptionField::Pipeline, ConfigValueModel::Names(ns)) => match passes_of(ns) {
            Some(ps) => Some(OptionsModel { pipeline: ps, ..opts }),
            None => None,
        },
        (OptionField::NumRepr, ConfigValueModel::Name(n)) => match num_repr_of(n) {
            Some(r) => Some(OptionsModel { num_repr: r, ..opts }),
            None => None,
        },
        _ => None,
    }
}

pub struct LoadState {
    pub opts: OptionsModel,
    pub seen: Set<OptionField>,
}

/// Reading the fields of `doc` in order, starting from the defaults: the first unknown key,
/// repeated key or ill-shaped value rejects the whole document.
pub open spec fn load_prefix(doc: Seq<FieldModel>) -> Result<LoadState, ConfigErrorModel>
    decreases doc.len(),
{
    if doc.len() == 0 {
        Ok(LoadState { opts: default_options(), seen: Set::empty() })
    } else {
        match load_prefix(doc.drop_last()) {
            Err(e) => Err(e),
            Ok(st) => {
                let f = doc.last();
                match option_field_of(f.key) {
                    None => Err(ConfigErrorModel::UnknownField(f.key)),
                    Some(id) => if st.seen.contains(id) {
                        Err(ConfigErrorModel::DuplicateField(f.key))
                    } else {
                        match set_field(st.opts, id, f.value) {
                            None => Err(ConfigErrorModel::InvalidValue(f.key)),
                            Some(o) => Ok(LoadState { opts: o, seen: st.seen.insert(id) }),
                        }
                    },
                }
            },
        }
    }
}

pub open spec fn load_document(doc: Seq<FieldModel>) -> Result<OptionsModel, ConfigErrorModel> {
    match load_prefix(doc) {
        Ok(st) => Ok(st.opts),
        Err(e) => Err(e),
    }
}

/// Once a prefix of a document is rejected, the whole document is rejected with the same error.
proof fn lemma_rejection_persists(doc: Seq<FieldModel>, n: int)
    requires
        0 <= n <= doc.len(),
        load_prefix(doc.take(n)) is Err,
    ensures
        load_prefix(doc) == load_prefix(doc.take(n)),
    decreases doc.len() - n,
{
    if n < doc.len() {
        assert(doc.take(n + 1).drop_last() =~= doc.take(n));
        lemma_rejection_persists(doc, n + 1);
    } else {
        assert(doc.take(n) =~= doc);
    }
}

/// A document that holds a key outside the recognised set is rejected: no options come of it.
pub proof fn lemma_unknown_field_rejected(doc: Seq<FieldModel>, i: int)
    requires
        0 <= i < doc.len(),
        option_field_of(doc[i].key) is None,
    ensures
        load_document(doc) is Err,
{
    let pre = doc.take(i + 1);
    assert(pre.drop_last() =~= doc.take(i));
    assert(pre.last() == doc[i]);
    lemma_rejection_persists(doc, i + 1);
}

fn option_field(key: &String) -> (r: Option<OptionField>)
    ensures
        r == option_field_of(key@),
{
    if str_is(key.as_str(), "ignore_pragma_opaque_internal_only") {
        Some(OptionField::OpaqueInternalOnly)
    } else if str_is(key.as_str(), "ignore_pragma_opaque_when_possible") {
        Some(OptionField::OpaqueWhenPossible)
    } else if str_is(key.as_str(), "simplification_pipeline") {
        Some(OptionField::Pipeline)
    } else if str_is(key.as_str(), "num_repr") {
        Some(OptionField::NumRepr)
    } else {
        None
    }
}

fn pass_named(name: &String) -> (r: Option<SimplificationPass>)
    ensures
        r == pass_of(name@),
{
    if str_is(name.as_str(), "Inline") {
        Some(SimplificationPass::Inline)
    } else if str_is(name.as_str(), "Quantifier") {
        Some(SimplificationPass::Quantifier)
    } else {
        None
    }
}

fn num_repr_named(name: &String) -> (r: Option<NumRepresentation>)
    ensures
        r == num_repr_of(name@),
{
    if str_is(name.as_str(), "Int") {
        Some(NumRepresentation::Int)
    } else if str_is(name.as_str(), "Bv") {
        Some(NumRepresentation::Bv)
    } else if str_is(name.as_str(), "Auto") {
        Some(NumRepresentation::Auto)
    } else {
        None
    }
}

fn passes_named(names: &Vec<String>) -> (r: Option<Vec<SimplificationPass>>)
    ensures
        match r {
            Some(ps) => passes_of(names@.map_values(|n: String| n@)) == Some(ps@),
            None => passes_of(names@.map_values(|n: String| n@)) is None,
        },
{
    let ghost model = names@.map_values(|n: String| n@);
    let mut ps: Vec<SimplificationPass> = Vec::new();
    let mut i: usize = 0;
    while i < names.len()
        invariant
            i <= names.len(),
            model == names@.map_values(|n: String| n@),
            passes_of(model.take(i as int)) == Some(ps@),
        decreases names.len() - i,
    {
        assert(model.take(i + 1).drop_last() =~= model.take(i as int));
        match pass_named(&names[i]) {
            Some(p) => {
                ps.push(p);
            },
            None => {
                assert(passes_of(model.take(i + 1)) is None);
                proof {
                    lemma_passes_none_persists(model, (i + 1) as int);
                }
                return None;
            },
        }
        i = i + 1;
    }
    assert(model.take(names.len() as int) =~= model);
    Some(ps)
}

proof fn lemma_passes_none_persists(names: Seq<Seq<char>>, n: int)
    requires
        0 <= n <= names.len(),
        passes_of(names.take(n)) is None,
    ensures
        passes_of(names) is None,
    decreases names.len() - n,
{
    if n < names.len() {
        assert(names.take(n + 1).drop_last() =~= names.take(n));
        lemma_passes_none_persists(names, n + 1);
    } else {
        assert(names.take(n) =~= names);
    }
}

/// Which fields have been read so far.
struct Seen {
    opaque_internal_only: bool,
    opaque_when_possible: bool,
    pipeline: bool,
    num_repr: bool,
}

impl Seen {
    spec fn set(&self) -> Set<OptionField> {
        Set::new(|f: OptionField| self.has_spec(f))
    }

    spec fn has_spec(&self, f: OptionField) -> bool {
        match f {
            OptionField::OpaqueInternalOnly => self.opaque_internal_only,
            OptionField::OpaqueWhenPossible => self.opaque_when_possible,
            OptionField::Pipeline => self.pipeline,
            OptionField::NumRepr => self.num_repr,
        }
    }

    fn has(&self, f: OptionField) -> (r: bool)
        ensures
            r == self.set().contains(f),
    {
        match f {
            OptionField::OpaqueInternalOnly => self.opaque_internal_only,
            OptionField::OpaqueWhenPossible => self.opaque_when_possible,
            OptionField::Pipeline => self.pipeline,
            OptionField::NumRepr => self.num_repr,
        }
    }

    fn mark(&mut self, f: OptionField)
        ensures
            final(self).set() == old(self).set().insert(f),
    {
        match f {
            OptionField::OpaqueInternalOnly => self.opaque_internal_only = true,
            OptionField::OpaqueWhenPossible => self.opaque_when_possible = true,
            OptionField::Pipeline => self.pipeline = true,
            OptionField::NumRepr => self.num_repr = true,
        }
        assert(final(self).set() =~= old(self).set().insert(f));
    }
}

/// `opts` with `field` set from `value`, or `None` if the value has the wrong shape.
fn apply_value(opts: &mut ModelBuilderOptions, field: OptionField, value: &ConfigValue) -> (ok: bool)
    ensures
        match set_field(old(opts)@, field, value@) {
            Some(o) => ok && final(opts)@ == o,
            None => !ok,
        },
{
    match (field, value) {
        (OptionField::OpaqueInternalOnly, ConfigValue::Bool(b)) => {
            opts.ignore_pragma_opaque_internal_only = *b;
            true
        },
        (OptionField::OpaqueWhenPossible, ConfigValue::Bool(b)) => {
            opts.ignore_pragma_opaque_when_possible = *b;
            true
        },
        (OptionField::Pipeline, ConfigValue::Names(ns)) => match passes_named(ns) {
            Some(ps) => {
                opts.simplification_pipeline = ps;
                true
            },
            None => false,
        },
        (OptionField::NumRepr, ConfigValue::Name(n)) => match num_repr_named(n) {
            Some(r) => {
                opts.num_repr = r;
                true
            },
            None => false,
        },
        _ => false,
    }
}

impl ModelBuilderOptions {
    /// Whether a function's "opaque" pragma may be ignored. The two flags only permit it: a
    /// function spec with a property marked `[concrete]` or `[abstract]` always stays opaque.
    /// `internal` says that the function has no unknown callers.
    pub fn may_ignore_opaque(&self, internal: bool, has_marked_property: bool) -> (r: bool)
        ensures
            r == (!has_marked_property && (self.ignore_pragma_opaque_when_possible || (
            self.ignore_pragma_opaque_internal_only && internal))),
            has_marked_property ==> !r,
    {
        if has_marked_property {
            false
        } else {
            self.ignore_pragma_opaque_when_possible || (self.ignore_pragma_opaque_internal_only
                && internal)
        }
    }

    /// Builds options from a configuration document. Fields that the document does not set
    /// keep their defaults; an unknown key, a key given twice or a value of the wrong shape
    /// rejects the document.
    pub fn from_document(doc: &Vec<ConfigField>) -> (r: Result<ModelBuilderOptions, ConfigError>)
        ensures
            match r {
                Ok(o) => load_document(doc@.map_values(|f: ConfigField| f@)) == Ok::<
                    OptionsModel,
                    ConfigErrorModel,
                >(o@),
                Err(e) => load_document(doc@.map_values(|f: ConfigField| f@)) == Err::<
                    OptionsModel,
                    ConfigErrorModel,
                >(e@),
            },
    {
        let ghost model = doc@.map_values(|f: ConfigField| f@);
        let mut opts = ModelBuilderOptions::default();
        let mut seen = Seen {
            opaque_internal_only: false,
            opaque_when_possible: false,
            pipeline: false,
            num_repr: false,
        };
        assert(seen.set() =~= Set::<OptionField>::empty());
        assert(model.take(0) =~= Seq::<FieldModel>::empty());
        let mut i: usize = 0;
        while i < doc.len()
            invariant
                i <= doc.len(),
                model == doc@.map_values(|f: ConfigField| f@),
                load_prefix(model.take(i as int)) == Ok::<LoadState, ConfigErrorModel>(
                    LoadState { opts: opts@, seen: seen.set() },
                ),
            decreases doc.len() - i,
        {
            let f = &doc[i];
            let ghost pre = model.take(i + 1);
            assert(pre.drop_last() =~= model.take(i as int));
            assert(pre.last() == f@);
            let err = match option_field(&f.key) {
                None => Some(ConfigError::UnknownField(f.key.clone())),
                Some(id) => {
                    if seen.has(id) {
                        Some(ConfigError::DuplicateField(f.key.clone()))
                    } else if apply_value(&mut opts, id, &f.value) {
                        seen.mark(id);
                        None
                    } else {
                        Some(ConfigError::InvalidValue(f.key.clone()))
                    }
                },
            };
            match err {
                Some(e) => {
                    proof {
                        lemma_rejection_persists(model, (i + 1) as int);
                    }
                    return Err(e);
                },
                None => {},
            }
            i = i + 1;
        }
        assert(model.take(doc.len() as int) =~= model);
        Ok(opts)
    }
}

} // verus!
