use vstd::prelude::*;

verus! {

/// A type of the target ABI.
#[derive(Debug)]
pub enum AbiType {
    Bool,
    Uint8,
    Uint16,
    Uint32,
    Uint64,
    Uint128,
    Uint256,
    Address,
    /// A dynamically sized array of the inner type.
    Array(Box<AbiType>),
}

/// The canonical name of an ABI type, as it appears in signatures (`uint256`, `address[]`).
pub open spec fn abi_type_name(t: AbiType) -> Seq<char>
    decreases t,
{
    match t {
        AbiType::Bool => "bool"@,
        AbiType::Uint8 => "uint8"@,
        AbiType::Uint16 => "uint16"@,
        AbiType::Uint32 => "uint32"@,
        AbiType::Uint64 => "uint64"@,
        AbiType::Uint128 => "uint128"@,
        AbiType::Uint256 => "uint256"@,
        AbiType::Address => "address"@,
        AbiType::Array(inner) => abi_type_name(*inner) + "[]"@,
    }
}

impl AbiType {
    pub fn name(&self) -> (r: String)
        ensures
            r@ == abi_type_name(*self),
        decreases self,
    {
        match self {
            AbiType::Bool => String::from_str("bool"),
            AbiType::Uint8 => String::from_str("uint8"),
            AbiType::Uint16 => String::from_str("uint16"),
            AbiType::Uint32 => String::from_str("uint32"),
            AbiType::Uint64 => String::from_str("uint64"),
            AbiType::Uint128 => String::from_str("uint128"),
            AbiType::Uint256 => String::from_str("uint256"),
            AbiType::Address => String::from_str("address"),
            AbiType::Array(inner) => inner.name().concat("[]"),
        }
    }
}

/// Whether `s` is the text `lit`.
pub(crate) fn str_is(s: &str, lit: &str) -> (r: bool)
    ensures
        r == (s@ == lit@),
{
    let a = String::from_str(s);
    let b = String::from_str(lit);
    a.eq(&b)
}

proof fn lemma_base_names()
    ensures
        "bool"@ == seq!['b', 'o', 'o', 'l'],
        "uint8"@ == seq!['u', 'i', 'n', 't', '8'],
        "uint16"@ == seq!['u', 'i', 'n', 't', '1', '6'],
        "uint32"@ == seq!['u', 'i', 'n', 't', '3', '2'],
        "uint64"@ == seq!['u', 'i', 'n', 't', '6', '4'],
        "uint128"@ == seq!['u', 'i', 'n', 't', '1', '2', '8'],
        "uint256"@ == seq!['u', 'i', 'n', 't', '2', '5', '6'],
        "address"@ == seq!['a', 'd', 'd', 'r', 'e', 's', 's'],
        "[]"@ == seq!['[', ']'],
{
    reveal_strlit("bool");
    reveal_strlit("uint8");
    reveal_strlit("uint16");
    reveal_strlit("uint32");
    reveal_strlit("uint64");
    reveal_strlit("uint128");
    reveal_strlit("uint256");
    reveal_strlit("address");
    reveal_strlit("[]");
    assert("bool"@ =~= seq!['b', 'o', 'o', 'l']);
    assert("uint8"@ =~= seq!['u', 'i', 'n', 't', '8']);
    assert("uint16"@ =~= seq!['u', 'i', 'n', 't', '1', '6']);
    assert("uint32"@ =~= seq!['u', 'i', 'n', 't', '3', '2']);
    assert("uint64"@ =~= seq!['u', 'i', 'n', 't', '6', '4']);
    assert("uint128"@ =~= seq!['u', 'i', 'n', 't', '1', '2', '8']);
    assert("uint256"@ =~= seq!['u', 'i', 'n', 't', '2', '5', '6']);
    assert("address"@ =~= seq!['a', 'd', 'd', 'r', 'e', 's', 's']);
    assert("[]"@ =~= seq!['[', ']']);
}

/// Whether a name ends in the array suffix `[]`.
pub open spec fn ends_in_brackets(s: Seq<char>) -> bool {
    s.len() >= 2 && s[s.len() - 2] == '[' && s[s.len() - 1] == ']'
}

/// The name of an array type ends in `[]`, and no other name does.
proof fn lemma_name_suffix(t: AbiType)
    ensures
        ends_in_brackets(abi_type_name(t)) == (t is Array),
        t is Array ==> abi_type_name(t).subrange(0, abi_type_name(t).len() - 2) == abi_type_name(
            *t->Array_0,
        ),
{
    lemma_base_names();
    if let AbiType::Array(inner) = t {
        let n = abi_type_name(*inner);
        assert((n + "[]"@).subrange(0, n.len() as int) =~= n);
    }
}

/// Different ABI types have different names, so a type written by its name reads back as the
/// same type.
pub proof fn lemma_type_name_injective(t1: AbiType, t2: AbiType)
    requires
        abi_type_name(t1) == abi_type_name(t2),
    ensures
        t1 == t2,
    decreases t1,
{
    lemma_name_suffix(t1);
    lemma_name_suffix(t2);
    lemma_base_names();
    match (t1, t2) {
        (AbiType::Array(a), AbiType::Array(b)) => {
            lemma_type_name_injective(*a, *b);
        },
        _ => {
            let n1 = abi_type_name(t1);
            let n2 = abi_type_name(t2);
            assert(n1.len() == n2.len());
            if n1.len() > 4 {
                assert(n1[4] == n2[4]);
            }
            assert(n1[0] == n2[0]);
        },
    }
}

/// The ABI type with the given canonical name, if there is one.
pub fn parse_abi_type(s: &str) -> (r: Option<AbiType>)
    ensures
        match r {
            Some(t) => abi_type_name(t) == s@,
            None => forall|t: AbiType| abi_type_name(t) != s@,
        },
    decreases s@.len(),
{
    proof {
        lemma_base_names();
    }
    let n: usize = s.unicode_len();
    if n >= 2 && s.get_char(n - 2) == '[' && s.get_char(n - 1) == ']' {
        let inner = s.substring_char(0, n - 2);
        let r = match parse_abi_type(inner) {
            Some(t) => Some(AbiType::Array(Box::new(t))),
            None => None,
        };
        proof {
            assert(s@ =~= inner@ + "[]"@);
            assert forall|t: AbiType| r is None implies abi_type_name(t) != s@ by {
                lemma_name_suffix(t);
                if abi_type_name(t) == s@ {
                    assert(abi_type_name(*t->Array_0) == inner@);
                }
            }
        }
        r
    } else {
        let r = if str_is(s, "bool") {
            Some(AbiType::Bool)
        } else if str_is(s, "uint8") {
            Some(AbiType::Uint8)
        } else if str_is(s, "uint16") {
            Some(AbiType::Uint16)
        } else if str_is(s, "uint32") {
            Some(AbiType::Uint32)
        } else if str_is(s, "uint64") {
            Some(AbiType::Uint64)
        } else if str_is(s, "uint128") {
            Some(AbiType::Uint128)
        } else if str_is(s, "uint256") {
            Some(AbiType::Uint256)
        } else if str_is(s, "address") {
            Some(AbiType::Address)
        } else {
            None
        };
        proof {
            assert(!ends_in_brackets(s@));
            assert forall|t: AbiType| r is None implies abi_type_name(t) != s@ by {
                lemma_name_suffix(t);
            }
        }
        r
    }
}

/// Whether a signature describes an event or a callable function.
#[derive(Debug, Clone, Copy, PartialEq, Eq, Structural)]
pub enum SigKind {
    Event,
    Function,
}

/// One parameter of a signature. `indexed` is set for event fields only.
#[derive(Debug)]
pub struct AbiParam {
    pub name: String,
    pub ty: AbiType,
    pub indexed: Option<bool>,
}

pub struct ParamModel {
    pub name: Seq<char>,
    pub ty: AbiType,
    pub indexed: Option<bool>,
}

impl View for AbiParam {
    type V = ParamModel;

    open spec fn view(&self) -> ParamModel {
        ParamModel { name: self.name@, ty: self.ty, indexed: self.indexed }
    }
}

pub open spec fn params_view(ps: Seq<AbiParam>) -> Seq<ParamModel> {
    ps.map_values(|p: AbiParam| p@)
}

/// The ABI description of one event or callable function.
#[derive(Debug)]
pub struct ABIJsonSignature {
    pub name: String,
    pub kind: SigKind,
    pub inputs: Vec<AbiParam>,
    pub outputs: Vec<AbiParam>,
    /// The call attribute given for a function (such as `payable`), kept verbatim.
    pub state_mutability: Option<String>,
}

pub struct SigModel {
    pub name: Seq<char>,
    pub kind: SigKind,
    pub inputs: Seq<ParamModel>,
    pub outputs: Seq<ParamModel>,
    pub state_mutability: Option<Seq<char>>,
}

pub open spec fn opt_text_view(s: Option<String>) -> Option<Seq<char>> {
    match s {
        Some(t) => Some(t@),
        None => None,
    }
}

impl View for ABIJsonSignature {
    type V = SigModel;

    open spec fn view(&self) -> SigModel {
        SigModel {
            name: self.name@,
            kind: self.kind,
            inputs: params_view(self.inputs@),
            outputs: params_view(self.outputs@),
            state_mutability: opt_text_view(self.state_mutability),
        }
    }
}

/// Lexicographic order of character sequences from position `i` on, comparing code points.
pub open spec fn lt_from(a: Seq<char>, b: Seq<char>, i: int) -> bool
    decreases a.len() - i,
{
    if i >= a.len() {
        i < b.len()
    } else if i >= b.len() {
        false
    } else if a[i] != b[i] {
        (a[i] as int) < (b[i] as int)
    } else {
        lt_from(a, b, i + 1)
    }
}

/// The order of map keys: the order of `String`'s `Ord`, code point by code point.
pub open spec fn key_lt(a: Seq<char>, b: Seq<char>) -> bool {
    lt_from(a, b, 0)
}

proof fn lemma_lt_from_irreflexive(a: Seq<char>, i: int)
    requires
        0 <= i,
    ensures
        !lt_from(a, a, i),
    decreases a.len() - i,
{
    if i < a.len() {
        lemma_lt_from_irreflexive(a, i + 1);
    }
}

proof fn lemma_lt_from_transitive(a: Seq<char>, b: Seq<char>, c: Seq<char>, i: int)
    requires
        0 <= i,
        lt_from(a, b, i),
        lt_from(b, c, i),
    ensures
        lt_from(a, c, i),
    decreases a.len() - i,
{
    if i < a.len() && i < b.len() && i < c.len() && a[i] == b[i] && b[i] == c[i] {
        lemma_lt_from_transitive(a, b, c, i + 1);
    }
}

proof fn lemma_lt_from_total(a: Seq<char>, b: Seq<char>, i: int)
    requires
        0 <= i <= a.len(),
        i <= b.len(),
        forall|j: int| 0 <= j < i ==> a[j] == b[j],
        a != b,
    ensures
        lt_from(a, b, i) || lt_from(b, a, i),
    decreases a.len() - i,
{
    if i == a.len() && i == b.len() {
        assert(a =~= b);
    } else if i < a.len() && i < b.len() && a[i] == b[i] {
        lemma_lt_from_total(a, b, i + 1);
    } else if i < a.len() && i < b.len() {
        assert((a[i] as int) != (b[i] as int));
    }
}

pub proof fn lemma_key_lt_irreflexive(a: Seq<char>)
    ensures
        !key_lt(a, a),
{
    lemma_lt_from_irreflexive(a, 0);
}

pub proof fn lemma_key_lt_transitive(a: Seq<char>, b: Seq<char>, c: Seq<char>)
    requires
        key_lt(a, b),
        key_lt(b, c),
    ensures
        key_lt(a, c),
{
    lemma_lt_from_transitive(a, b, c, 0);
}

pub proof fn lemma_key_lt_total(a: Seq<char>, b: Seq<char>)
    requires
        a != b,
    ensures
        key_lt(a, b) || key_lt(b, a),
{
    lemma_lt_from_total(a, b, 0);
}

/// Whether `a` comes before `b` in key order.
pub fn key_less(a: &String, b: &String) -> (r: bool)
    ensures
        r == key_lt(a@, b@),
{
    let sa = a.as_str();
    let sb = b.as_str();
    let la: usize = sa.unicode_len();
    let lb: usize = sb.unicode_len();
    let mut i: usize = 0;
    while i < la && i < lb
        invariant
            la == a@.len(),
            lb == b@.len(),
            sa@ == a@,
            sb@ == b@,
            i <= la,
            i <= lb,
            lt_from(a@, b@, 0) == lt_from(a@, b@, i as int),
        decreases la - i,
    {
        let ca = sa.get_char(i);
        let cb = sb.get_char(i);
        if ca != cb {
            return (ca as u32) < (cb as u32);
        }
        i = i + 1;
    }
    i < lb
}

} // verus!
