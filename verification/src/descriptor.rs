//! Field and method descriptors.
//!
//! A descriptor is a compact string encoding a field's type or a method's
//! parameter and return types.  The grammar here covers the integer,
//! long, boolean and void base types, object types written `L<name>;`,
//! and array types written with leading `[` characters whose count is the
//! array depth.

use vstd::prelude::*;

verus! {

/// The mathematical shape of a parsed base (non-array) type.
pub enum BaseView {
    Int,
    Long,
    Bool,
    Void,
    Object(Seq<char>),
}

/// The mathematical shape of a parsed type.
pub enum TypeView {
    Int,
    Long,
    Bool,
    Void,
    Object(Seq<char>),
    Array(u8, BaseView),
}

/// A parsed type.  An array carries its depth and its element type; the
/// parser always produces a non-array element, since consecutive leading
/// brackets collapse into the depth.
#[derive(Debug, PartialEq, Eq)]
pub enum Type {
    Int,
    Long,
    Bool,
    Void,
    Object(String),
    Array(u8, Box<Type>),
}

/// The base view of a type, looking through array nesting to the first
/// non-array element.
pub open spec fn base_of(t: Type) -> BaseView
    decreases t,
{
    match t {
        Type::Int => BaseView::Int,
        Type::Long => BaseView::Long,
        Type::Bool => BaseView::Bool,
        Type::Void => BaseView::Void,
        Type::Object(s) => BaseView::Object(s@),
        Type::Array(_, inner) => base_of(*inner),
    }
}

impl View for Type {
    type V = TypeView;

    open spec fn view(&self) -> TypeView {
        match *self {
            Type::Int => TypeView::Int,
            Type::Long => TypeView::Long,
            Type::Bool => TypeView::Bool,
            Type::Void => TypeView::Void,
            Type::Object(s) => TypeView::Object(s@),
            Type::Array(d, inner) => TypeView::Array(d, base_of(*inner)),
        }
    }
}

/// The first position at or after `i` holding the character, if any.
pub open spec fn find_char_from(s: Seq<char>, c: char, i: int) -> Option<int>
    decreases s.len() - i,
{
    if i < 0 || i >= s.len() {
        None
    } else if s[i] == c {
        Some(i)
    } else {
        find_char_from(s, c, i + 1)
    }
}

/// The count of consecutive `[` characters starting at `i`.
pub open spec fn array_depth_at(s: Seq<char>, i: int) -> int
    decreases s.len() - i,
{
    if 0 <= i < s.len() && s[i] == '[' {
        1 + array_depth_at(s, i + 1)
    } else {
        0
    }
}

/// Parses the base type at `i`: the parsed type and the position after
/// it, or nothing when no base type starts there.
pub open spec fn parse_base(s: Seq<char>, i: int) -> Option<(BaseView, int)> {
    if 0 <= i < s.len() {
        if s[i] == 'I' {
            Some((BaseView::Int, i + 1))
        } else if s[i] == 'J' {
            Some((BaseView::Long, i + 1))
        } else if s[i] == 'Z' {
            Some((BaseView::Bool, i + 1))
        } else if s[i] == 'V' {
            Some((BaseView::Void, i + 1))
        } else if s[i] == 'L' {
            match find_char_from(s, ';', i + 1) {
                Some(semi) => Some((BaseView::Object(s.subrange(i + 1, semi)), semi + 1)),
                None => None,
            }
        } else {
            None
        }
    } else {
        None
    }
}

/// Lifts a base view into a type view.
pub open spec fn base_type(b: BaseView) -> TypeView {
    match b {
        BaseView::Int => TypeView::Int,
        BaseView::Long => TypeView::Long,
        BaseView::Bool => TypeView::Bool,
        BaseView::Void => TypeView::Void,
        BaseView::Object(s) => TypeView::Object(s),
    }
}

/// Parses one complete type at `i`: leading brackets give the array
/// depth, then a base type must follow.  A depth beyond what one byte
/// holds does not parse.
pub open spec fn parse_one_type(s: Seq<char>, i: int) -> Option<(TypeView, int)> {
    let d = array_depth_at(s, i);
    if d > 255 {
        None
    } else {
        match parse_base(s, i + d) {
            Some((b, j)) => Some(
                (
                    if d == 0 {
                        base_type(b)
                    } else {
                        TypeView::Array(d as u8, b)
                    },
                    j,
                ),
            ),
            None => None,
        }
    }
}

/// Parses the whole range from `i` to the end as a list of types.
pub open spec fn parse_type_list(s: Seq<char>, i: int) -> Option<Seq<TypeView>>
    decreases s.len() - i,
{
    if i == s.len() {
        Some(Seq::empty())
    } else if i < 0 || i > s.len() {
        None
    } else {
        match parse_one_type(s, i) {
            Some((t, j)) => if i < j <= s.len() {
                match parse_type_list(s, j) {
                    Some(rest) => Some(seq![t] + rest),
                    None => None,
                }
            } else {
                None
            },
            None => None,
        }
    }
}

/// The argument types of a method descriptor: the type list between the
/// first `(` and the first `)`.
pub open spec fn spec_args(s: Seq<char>) -> Option<Seq<TypeView>> {
    match (find_char_from(s, '(', 0), find_char_from(s, ')', 0)) {
        (Some(l), Some(r)) => if l < r {
            parse_type_list(s.subrange(l + 1, r), 0)
        } else {
            None
        },
        _ => None,
    }
}

/// The return type of a method descriptor: the one type after the first
/// `)`.
pub open spec fn spec_ret(s: Seq<char>) -> Option<TypeView> {
    match find_char_from(s, ')', 0) {
        Some(r) => match parse_one_type(s, r + 1) {
            Some((t, _)) => Some(t),
            None => None,
        },
        None => None,
    }
}

/// A method descriptor's parsed form: its return type and its ordered
/// argument types.
#[derive(Debug, PartialEq, Eq)]
pub struct DescriptorInfo {
    pub ret: Type,
    pub args: Vec<Type>,
}

/// The array depth is non-negative and stays inside the range.
pub proof fn lemma_array_depth(s: Seq<char>, i: int)
    ensures
        array_depth_at(s, i) >= 0,
        0 <= i <= s.len() ==> i + array_depth_at(s, i) <= s.len(),
    decreases s.len() - i,
{
    if 0 <= i < s.len() && s[i] == '[' {
        lemma_array_depth(s, i + 1);
    }
}

/// A found character lies at or after the start, inside the range.
pub proof fn lemma_find_char(s: Seq<char>, c: char, i: int)
    ensures
        find_char_from(s, c, i) matches Some(j) ==> i <= j < s.len() && s[j] == c,
    decreases s.len() - i,
{
    if 0 <= i < s.len() && s[i] != c {
        lemma_find_char(s, c, i + 1);
    }
}

/// Finds the first occurrence of the character at or after `i`.
fn find_char(s: &str, c: char, i: usize) -> (r: Option<usize>)
    requires
        i <= s@.len(),
    ensures
        match r {
            Some(j) => find_char_from(s@, c, i as int) == Some(j as int),
            None => find_char_from(s@, c, i as int) is None,
        },
{
    let n = s.unicode_len();
    let mut k = i;
    loop
        invariant
            i <= k <= n,
            n == s@.len(),
            find_char_from(s@, c, i as int) == find_char_from(s@, c, k as int),
        decreases n - k,
    {
        if k == n {
            return None;
        }
        if s.get_char(k) == c {
            return Some(k);
        }
        k = k + 1;
    }
}

/// Counts the consecutive `[` characters starting at `i`.
fn scan_depth(s: &str, i: usize) -> (j: usize)
    requires
        i <= s@.len(),
    ensures
        j - i == array_depth_at(s@, i as int),
        i <= j <= s@.len(),
{
    let n = s.unicode_len();
    let mut k = i;
    loop
        invariant
            i <= k <= n,
            n == s@.len(),
            array_depth_at(s@, i as int) == k - i + array_depth_at(s@, k as int),
        decreases n - k,
    {
        if k == n {
            return k;
        }
        if s.get_char(k) != '[' {
            return k;
        }
        k = k + 1;
    }
}

/// Parses one complete type starting at `i`, returning the type and the
/// position after it, or nothing when no type starts there.
fn parse_one(s: &str, i: usize) -> (r: Option<(Type, usize)>)
    requires
        i <= s@.len(),
    ensures
        match r {
            Some(p) => parse_one_type(s@, i as int) == Some((p.0@, p.1 as int)) && i < p.1
                <= s@.len(),
            None => parse_one_type(s@, i as int) is None,
        },
{
    let n = s.unicode_len();
    let j = scan_depth(s, i);
    let depth = j - i;
    proof {
        lemma_array_depth(s@, i as int);
    }
    if depth > 255 {
        return None;
    }
    if j == n {
        return None;
    }
    let c = s.get_char(j);
    let base: (Type, usize) = if c == 'I' {
        (Type::Int, j + 1)
    } else if c == 'J' {
        (Type::Long, j + 1)
    } else if c == 'Z' {
        (Type::Bool, j + 1)
    } else if c == 'V' {
        (Type::Void, j + 1)
    } else if c == 'L' {
        match find_char(s, ';', j + 1) {
            Some(semi) => {
                proof {
                    lemma_find_char(s@, ';', j as int + 1);
                }
                let name = s.substring_char(j + 1, semi).to_owned();
                (Type::Object(name), semi + 1)
            },
            None => {
                return None;
            },
        }
    } else {
        return None;
    };
    if depth == 0 {
        Some(base)
    } else {
        Some((Type::Array(depth as u8, Box::new(base.0)), base.1))
    }
}

/// Parses the whole string as a list of types, or reports that it does
/// not parse.
pub fn parse_region(s: &str) -> (r: Option<Vec<Type>>)
    ensures
        match r {
            Some(v) => parse_type_list(s@, 0) == Some(v@.map_values(|t: Type| t@)),
            None => parse_type_list(s@, 0) is None,
        },
{
    let n = s.unicode_len();
    let mut out: Vec<Type> = Vec::new();
    let mut i: usize = 0;
    loop
        invariant
            i <= n,
            n == s@.len(),
            match parse_type_list(s@, i as int) {
                Some(rest) => parse_type_list(s@, 0) == Some(
                    out@.map_values(|t: Type| t@) + rest,
                ),
                None => parse_type_list(s@, 0) is None,
            },
        decreases n - i,
    {
        if i == n {
            proof {
                assert(parse_type_list(s@, i as int) == Some(Seq::<TypeView>::empty()));
                if parse_type_list(s@, 0) is Some {
                    assert(out@.map_values(|t: Type| t@) + Seq::<TypeView>::empty()
                        =~= out@.map_values(|t: Type| t@));
                }
            }
            return Some(out);
        }
        let ghost old_out = out@;
        match parse_one(s, i) {
            Some((t, j)) => {
                let ghost tv = t@;
                out.push(t);
                proof {
                    assert(out@.map_values(|x: Type| x@) =~= old_out.map_values(|x: Type| x@)
                        + seq![tv]);
                    if parse_type_list(s@, j as int) is Some {
                        let rest = parse_type_list(s@, j as int)->Some_0;
                        assert(parse_type_list(s@, i as int) == Some(seq![tv] + rest));
                        assert(old_out.map_values(|x: Type| x@) + (seq![tv] + rest) =~= (
                        old_out.map_values(|x: Type| x@) + seq![tv]) + rest);
                    } else {
                        assert(parse_type_list(s@, i as int) is None);
                    }
                }
                i = j;
            },
            None => {
                proof {
                    assert(parse_type_list(s@, i as int) is None);
                }
                return None;
            },
        }
    }
}

/// Splits a partial descriptor into its list of types.
///
/// The string must parse under the descriptor grammar; a malformed one is
/// rejected ahead of this call by [`parse_descriptor`].
pub fn types_from(arg_str: &str) -> (r: Vec<Type>)
    requires
        parse_type_list(arg_str@, 0) is Some,
    ensures
        Some(r@.map_values(|t: Type| t@)) == parse_type_list(arg_str@, 0),
{
    match parse_region(arg_str) {
        Some(v) => v,
        None => unreached(),
    }
}

/// The argument types of a method descriptor: the types between the
/// parentheses.
pub fn args(descriptor: &str) -> (r: Vec<Type>)
    requires
        spec_args(descriptor@) is Some,
    ensures
        Some(r@.map_values(|t: Type| t@)) == spec_args(descriptor@),
{
    proof {
        lemma_find_char(descriptor@, '(', 0);
        lemma_find_char(descriptor@, ')', 0);
    }
    let l = match find_char(descriptor, '(', 0) {
        Some(l) => l,
        None => unreached(),
    };
    let r = match find_char(descriptor, ')', 0) {
        Some(r) => r,
        None => unreached(),
    };
    if l >= r {
        unreached()
    } else {
        let inner = descriptor.substring_char(l + 1, r);
        types_from(inner)
    }
}

/// The first type of the partial descriptor.
pub fn type_from(partial_descriptor: &str) -> (r: Type)
    requires
        parse_type_list(partial_descriptor@, 0) is Some,
        parse_type_list(partial_descriptor@, 0)->Some_0.len() > 0,
    ensures
        parse_one_type(partial_descriptor@, 0) matches Some(p) && p.0 == r@,
{
    let mut v = types_from(partial_descriptor);
    proof {
        let s = partial_descriptor@;
        let lst = parse_type_list(s, 0)->Some_0;
        assert(v@.map_values(|t: Type| t@).len() > 0);
        assert(parse_one_type(s, 0) is Some);
        assert(lst[0] == parse_one_type(s, 0)->Some_0.0);
        assert(v@.map_values(|t: Type| t@)[0] == v@[0]@);
    }
    v.remove(0)
}

/// The parsed form of a whole method descriptor: argument types between
/// the parentheses, return type after them.
pub fn info(descriptor: &str) -> (r: DescriptorInfo)
    requires
        spec_args(descriptor@) is Some,
        spec_ret(descriptor@) is Some,
    ensures
        Some(r.args@.map_values(|t: Type| t@)) == spec_args(descriptor@),
        Some(r.ret@) == spec_ret(descriptor@),
{
    let n = descriptor.unicode_len();
    let arg_types = args(descriptor);
    proof {
        lemma_find_char(descriptor@, ')', 0);
    }
    let rp = match find_char(descriptor, ')', 0) {
        Some(rp) => rp,
        None => unreached(),
    };
    let ret = match parse_one(descriptor, rp + 1) {
        Some((t, _)) => t,
        None => unreached(),
    };
    DescriptorInfo { ret, args: arg_types }
}

/// Parses a whole method descriptor, or reports that it is malformed.
///
/// This is the total entry the class loader uses on descriptors read
/// from a class file, so no caller has to establish validity first.
pub fn parse_descriptor(descriptor: &str) -> (r: Option<DescriptorInfo>)
    ensures
        match r {
            Some(d) => spec_args(descriptor@) == Some(d.args@.map_values(|t: Type| t@))
                && spec_ret(descriptor@) == Some(d.ret@),
            None => spec_args(descriptor@) is None || spec_ret(descriptor@) is None,
        },
{
    let n = descriptor.unicode_len();
    proof {
        lemma_find_char(descriptor@, '(', 0);
        lemma_find_char(descriptor@, ')', 0);
    }
    let l = match find_char(descriptor, '(', 0) {
        Some(l) => l,
        None => {
            return None;
        },
    };
    let r = match find_char(descriptor, ')', 0) {
        Some(r) => r,
        None => {
            return None;
        },
    };
    if l >= r {
        return None;
    }
    let inner = descriptor.substring_char(l + 1, r);
    let arg_types = match parse_region(inner) {
        Some(v) => v,
        None => {
            return None;
        },
    };
    let ret = match parse_one(descriptor, r + 1) {
        Some((t, _)) => t,
        None => {
            return None;
        },
    };
    Some(DescriptorInfo { ret, args: arg_types })
}

} // verus!
