use vstd::prelude::*;
use crate::abi_type::{ABIJsonSignature, AbiParam, AbiType, ParamModel, SigKind, SigModel, params_view, opt_text_view};

verus! {

/// A type of the source language, as declarations carry it.
#[derive(Debug)]
pub enum SourceType {
    Bool,
    U8,
    U16,
    U32,
    U64,
    U128,
    U256,
    Address,
    Signer,
    Vector(Box<SourceType>),
    /// A user-defined struct, by name.
    Struct(String),
}

/// The fixed mapping from source types to ABI types; `None` where the ABI has no equivalent.
pub open spec fn abi_type_of(t: SourceType) -> Option<AbiType>
    decreases t,
{
    match t {
        SourceType::Bool => Some(AbiType::Bool),
        SourceType::U8 => Some(AbiType::Uint8),
        SourceType::U16 => Some(AbiType::Uint16),
        SourceType::U32 => Some(AbiType::Uint32),
        SourceType::U64 => Some(AbiType::Uint64),
        SourceType::U128 => Some(AbiType::Uint128),
        SourceType::U256 => Some(AbiType::Uint256),
        SourceType::Address => Some(AbiType::Address),
        SourceType::Signer => None,
        SourceType::Vector(inner) => match abi_type_of(*inner) {
            Some(t) => Some(AbiType::Array(Box::new(t))),
            None => None,
        },
        SourceType::Struct(_) => None,
    }
}

pub fn to_abi_type(t: &SourceType) -> (r: Option<AbiType>)
    ensures
        r == abi_type_of(*t),
    decreases t,
{
    match t {
        SourceType::Bool => Some(AbiType::Bool),
        SourceType::U8 => Some(AbiType::Uint8),
        SourceType::U16 => Some(AbiType::Uint16),
        SourceType::U32 => Some(AbiType::Uint32),
        SourceType::U64 => Some(AbiType::Uint64),
        SourceType::U128 => Some(AbiType::Uint128),
        SourceType::U256 => Some(AbiType::Uint256),
        SourceType::Address => Some(AbiType::Address),
        SourceType::Signer => None,
        SourceType::Vector(inner) => match to_abi_type(inner) {
            Some(a) => Some(AbiType::Array(Box::new(a))),
            None => None,
        },
        SourceType::Struct(_) => None,
    }
}

/// A field of an event struct, with its `indexed` annotation.
#[derive(Debug)]
pub struct FieldDecl {
    pub name: String,
    pub ty: SourceType,
    pub indexed: bool,
}

/// A struct registered as an event.
#[derive(Debug)]
pub struct EventDecl {
    pub name: String,
    pub fields: Vec<FieldDecl>,
}

/// A parameter or return value of a callable function.
#[derive(Debug)]
pub struct ParamDecl {
    pub name: String,
    pub ty: SourceType,
}

/// A function registered as externally callable, with its call attribute.
#[derive(Debug)]
pub struct FunctionDecl {
    pub name: String,
    pub params: Vec<ParamDecl>,
    pub returns: Vec<ParamDecl>,
    pub attribute: Option<String>,
}

/// Where in a declaration the untranslatable type stands.
#[derive(Debug, Clone, Copy, PartialEq, Eq, Structural)]
pub enum ParamPosition {
    Field(usize),
    Param(usize),
    Return(usize),
}

/// A declaration whose types the ABI cannot express.
#[derive(Debug)]
pub struct TranslationError {
    /// The declared name of the event or function.
    pub item: String,
    pub position: ParamPosition,
}

pub struct ErrorModel {
    pub item: Seq<char>,
    pub position: ParamPosition,
}

impl View for TranslationError {
    type V = ErrorModel;

    open spec fn view(&self) -> ErrorModel {
        ErrorModel { item: self.item@, position: self.position }
    }
}

pub open spec fn errors_view(es: Seq<TranslationError>) -> Seq<ErrorModel> {
    es.map_values(|e: TranslationError| e@)
}

/// `i` is the first position whose type does not translate.
pub open spec fn first_untranslatable(tys: Seq<SourceType>, i: int) -> bool {
    &&& 0 <= i < tys.len()
    &&& abi_type_of(tys[i]) is None
    &&& forall|j: int| 0 <= j < i ==> abi_type_of(#[trigger] tys[j]) is Some
}

pub open spec fn all_translate(tys: Seq<SourceType>) -> bool {
    forall|j: int| 0 <= j < tys.len() ==> abi_type_of(#[trigger] tys[j]) is Some
}

pub open spec fn field_types(fs: Seq<FieldDecl>) -> Seq<SourceType> {
    fs.map_values(|f: FieldDecl| f.ty)
}

pub open spec fn param_types(ps: Seq<ParamDecl>) -> Seq<SourceType> {
    ps.map_values(|p: ParamDecl| p.ty)
}

pub open spec fn event_param(f: FieldDecl) -> ParamModel {
    ParamModel { name: f.name@, ty: abi_type_of(f.ty)->0, indexed: Some(f.indexed) }
}

pub open spec fn function_param(p: ParamDecl) -> ParamModel {
    ParamModel { name: p.name@, ty: abi_type_of(p.ty)->0, indexed: None }
}

/// The event signature of `e`: one input per field, in declared order.
pub open spec fn event_sig(e: EventDecl) -> SigModel {
    SigModel {
        name: e.name@,
        kind: SigKind::Event,
        inputs: e.fields@.map_values(|f: FieldDecl| event_param(f)),
        outputs: Seq::empty(),
        state_mutability: None,
    }
}

/// The function signature of `f`, with its attribute attached verbatim.
pub open spec fn function_sig(f: FunctionDecl) -> SigModel {
    SigModel {
        name: f.name@,
        kind: SigKind::Function,
        inputs: f.params@.map_values(|p: ParamDecl| function_param(p)),
        outputs: f.returns@.map_values(|p: ParamDecl| function_param(p)),
        state_mutability: opt_text_view(f.attribute),
    }
}

/// The fields' ABI parameters, or the index of the first field whose type does not translate.
fn event_params(fields: &Vec<FieldDecl>) -> (r: Result<Vec<AbiParam>, usize>)
    ensures
        match r {
            Ok(ps) => all_translate(field_types(fields@)) && params_view(ps@) == fields@.map_values(
                |f: FieldDecl| event_param(f),
            ),
            Err(i) => first_untranslatable(field_types(fields@), i as int),
        },
{
    let mut ps: Vec<AbiParam> = Vec::new();
    let mut i: usize = 0;
    while i < fields.len()
        invariant
            i <= fields.len(),
            ps@.len() == i,
            forall|j: int| 0 <= j < i ==> abi_type_of(#[trigger] field_types(fields@)[j]) is Some,
            params_view(ps@) == fields@.take(i as int).map_values(|f: FieldDecl| event_param(f)),
        decreases fields.len() - i,
    {
        let f = &fields[i];
        match to_abi_type(&f.ty) {
            Some(t) => {
                let ghost before = ps@;
                ps.push(AbiParam { name: f.name.clone(), ty: t, indexed: Some(f.indexed) });
                proof {
                    let want = fields@.take(i + 1).map_values(|f: FieldDecl| event_param(f));
                    let had = fields@.take(i as int).map_values(|f: FieldDecl| event_param(f));
                    assert forall|j: int| 0 <= j < i + 1 implies params_view(ps@)[j] == want[j] by {
                        if j < i {
                            assert(ps@[j] == before[j]);
                            assert(params_view(before)[j] == had[j]);
                        }
                    }
                    assert(params_view(ps@) =~= want);
                }
            },
            None => {
                return Err(i);
            },
        }
        i = i + 1;
    }
    assert(fields@.take(fields.len() as int) =~= fields@);
    Ok(ps)
}

/// The parameters' ABI parameters, or the index of the first whose type does not translate.
fn function_params(params: &Vec<ParamDecl>) -> (r: Result<Vec<AbiParam>, usize>)
    ensures
        match r {
            Ok(ps) => all_translate(param_types(params@)) && params_view(ps@) == params@.map_values(
                |p: ParamDecl| function_param(p),
            ),
            Err(i) => first_untranslatable(param_types(params@), i as int),
        },
{
    let mut ps: Vec<AbiParam> = Vec::new();
    let mut i: usize = 0;
    while i < params.len()
        invariant
            i <= params.len(),
            ps@.len() == i,
            forall|j: int| 0 <= j < i ==> abi_type_of(#[trigger] param_types(params@)[j]) is Some,
            params_view(ps@) == params@.take(i as int).map_values(|p: ParamDecl| function_param(p)),
        decreases params.len() - i,
    {
        let p = &params[i];
        match to_abi_type(&p.ty) {
            Some(t) => {
                let ghost before = ps@;
                ps.push(AbiParam { name: p.name.clone(), ty: t, indexed: None });
                proof {
                    let want = params@.take(i + 1).map_values(|p: ParamDecl| function_param(p));
                    let had = params@.take(i as int).map_values(|p: ParamDecl| function_param(p));
                    assert forall|j: int| 0 <= j < i + 1 implies params_view(ps@)[j] == want[j] by {
                        if j < i {
                            assert(ps@[j] == before[j]);
                            assert(params_view(before)[j] == had[j]);
                        }
                    }
                    assert(params_view(ps@) =~= want);
                }
            },
            None => {
                return Err(i);
            },
        }
        i = i + 1;
    }
    assert(params@.take(params.len() as int) =~= params@);
    Ok(ps)
}

/// Translates an event struct into its signature. The inputs follow the fields in declared
/// order, each with its `indexed` annotation; a field whose type the ABI cannot express is
/// reported by its position.
pub fn from_event_decl(e: &EventDecl) -> (r: Result<ABIJsonSignature, TranslationError>)
    ensures
        match r {
            Ok(sig) => all_translate(field_types(e.fields@)) && sig@ == event_sig(*e),
            Err(err) => err.item@ == e.name@ && exists|i: int|
                first_untranslatable(field_types(e.fields@), i) && err.position
                    == ParamPosition::Field(i as usize),
        },
{
    match event_params(&e.fields) {
        Ok(inputs) => {
            let sig = ABIJsonSignature {
                name: e.name.clone(),
                kind: SigKind::Event,
                inputs,
                outputs: Vec::new(),
                state_mutability: None,
            };
            assert(params_view(sig.outputs@) =~= Seq::<ParamModel>::empty());
            Ok(sig)
        },
        Err(i) => Err(TranslationError { item: e.name.clone(), position: ParamPosition::Field(i) }),
    }
}

/// Translates a callable function into its signature, with the call attribute attached
/// verbatim. A parameter or return type that the ABI cannot express is reported by its
/// position, parameters first.
pub fn from_function_decl(f: &FunctionDecl) -> (r: Result<ABIJsonSignature, TranslationError>)
    ensures
        match r {
            Ok(sig) => all_translate(param_types(f.params@)) && all_translate(
                param_types(f.returns@),
            ) && sig@ == function_sig(*f),
            Err(err) => err.item@ == f.name@ && ((exists|i: int|
                first_untranslatable(param_types(f.params@), i) && err.position
                    == ParamPosition::Param(i as usize)) || (all_translate(param_types(f.params@))
                && exists|i: int|
                first_untranslatable(param_types(f.returns@), i) && err.position
                    == ParamPosition::Return(i as usize))),
        },
{
    let inputs = match function_params(&f.params) {
        Ok(ps) => ps,
        Err(i) => {
            return Err(TranslationError { item: f.name.clone(), position: ParamPosition::Param(i) });
        },
    };
    let outputs = match function_params(&f.returns) {
        Ok(ps) => ps,
        Err(i) => {
            return Err(
                TranslationError { item: f.name.clone(), position: ParamPosition::Return(i) },
            );
        },
    };
    let state_mutability = match &f.attribute {
        Some(a) => Some(a.clone()),
        None => None,
    };
    Ok(
        ABIJsonSignature {
            name: f.name.clone(),
            kind: SigKind::Function,
            inputs,
            outputs,
            state_mutability,
        },
    )
}

} // verus!
