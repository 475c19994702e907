//! Identifier validation and sanitization.
//!
//! A name stored anywhere in the model must be a legal bare identifier of
//! the target language: ASCII-only, starting with a letter or `_`,
//! continuing with letters, digits or `_`, not empty, not the lone
//! placeholder `_`, and not a reserved word. [`validate_identifier`]
//! decides legality; [`make_valid_identifier`] proposes a best-effort
//! repaired alternative. [`Id`] wraps a string that passed one of the two.

use vstd::prelude::*;
use vstd::string::StrSliceExecFns;
use vstd::string::StringExecFns;

use crate::error::{Error, IdentError};

verus! {

/// A character that may open an identifier: an ASCII letter or `_`.
pub open spec fn is_start_char(c: char) -> bool {
    ('A' <= c && c <= 'Z') || ('a' <= c && c <= 'z') || c == '_'
}

/// A character that may continue an identifier: a start character or an
/// ASCII digit.
pub open spec fn is_continue_char(c: char) -> bool {
    is_start_char(c) || ('0' <= c && c <= '9')
}

/// Whether the character at index `i` of `s` is legal at that position.
pub open spec fn char_ok_at(s: Seq<char>, i: int) -> bool {
    if i == 0 {
        is_start_char(s[i])
    } else {
        is_continue_char(s[i])
    }
}

/// Every character of `s` is legal at its position, and `s` is not empty.
pub open spec fn valid_ident_chars(s: Seq<char>) -> bool {
    s.len() > 0 && forall|i: int| 0 <= i < s.len() ==> char_ok_at(s, i)
}

/// `s` is the single placeholder character `_`, which is not a name.
pub open spec fn is_placeholder(s: Seq<char>) -> bool {
    s.len() == 1 && s[0] == '_'
}

/// `s` is a reserved word of the target language.
pub open spec fn is_keyword(s: Seq<char>) -> bool {
    ||| s == "as"@
    ||| s == "async"@
    ||| s == "await"@
    ||| s == "break"@
    ||| s == "const"@
    ||| s == "continue"@
    ||| s == "crate"@
    ||| s == "dyn"@
    ||| s == "else"@
    ||| s == "enum"@
    ||| s == "extern"@
    ||| s == "false"@
    ||| s == "fn"@
    ||| s == "for"@
    ||| s == "if"@
    ||| s == "impl"@
    ||| s == "in"@
    ||| s == "let"@
    ||| s == "loop"@
    ||| s == "match"@
    ||| s == "mod"@
    ||| s == "move"@
    ||| s == "mut"@
    ||| s == "pub"@
    ||| s == "ref"@
    ||| s == "return"@
    ||| s == "self"@
    ||| s == "Self"@
    ||| s == "static"@
    ||| s == "struct"@
    ||| s == "super"@
    ||| s == "trait"@
    ||| s == "true"@
    ||| s == "type"@
    ||| s == "unsafe"@
    ||| s == "use"@
    ||| s == "where"@
    ||| s == "while"@
    ||| s == "abstract"@
    ||| s == "become"@
    ||| s == "box"@
    ||| s == "do"@
    ||| s == "final"@
    ||| s == "macro"@
    ||| s == "override"@
    ||| s == "priv"@
    ||| s == "try"@
    ||| s == "typeof"@
    ||| s == "unsized"@
    ||| s == "virtual"@
    ||| s == "yield"@
}

/// `s` is a legal identifier: well-formed characters, not the placeholder,
/// and not a reserved word.
pub open spec fn valid_ident(s: Seq<char>) -> bool {
    valid_ident_chars(s) && !is_placeholder(s) && !is_keyword(s)
}

/// The first index at or after `k` whose character is illegal at its
/// position, or `s.len()` if there is none.
pub open spec fn first_bad_from(s: Seq<char>, k: int) -> int
    recommends
        0 <= k <= s.len(),
    decreases s.len() - k,
{
    if k >= s.len() {
        k
    } else if !char_ok_at(s, k) {
        k
    } else {
        first_bad_from(s, k + 1)
    }
}

/// The reason `validate_identifier` rejects `s`, meaningful only when
/// `!valid_ident(s)`.
pub open spec fn spec_ident_error(s: Seq<char>) -> IdentError {
    if s.len() == 0 {
        IdentError::Empty
    } else if is_placeholder(s) {
        IdentError::Placeholder
    } else if is_keyword(s) {
        IdentError::ReservedWord
    } else {
        IdentError::InvalidChar(first_bad_from(s, 0) as usize)
    }
}

proof fn lemma_first_bad_pinned(s: Seq<char>, k: int, i: int)
    requires
        0 <= k <= i < s.len(),
        forall|j: int| k <= j < i ==> char_ok_at(s, j),
        !char_ok_at(s, i),
    ensures
        first_bad_from(s, k) == i,
    decreases i - k,
{
    if k < i {
        lemma_first_bad_pinned(s, k + 1, i);
    }
}

fn str_eq(a: &str, b: &str) -> (r: bool)
    ensures
        r == (a@ == b@),
{
    let alen = a.unicode_len();
    let blen = b.unicode_len();
    if alen != blen {
        return false;
    }
    let mut i: usize = 0;
    while i < alen
        invariant
            alen == a@.len(),
            blen == b@.len(),
            alen == blen,
            0 <= i <= alen,
            forall|j: int| 0 <= j < i ==> a@[j] == b@[j],
        decreases alen - i,
    {
        let ca = a.get_char(i);
        let cb = b.get_char(i);
        if ca != cb {
            return false;
        }
        i += 1;
    }
    proof {
        assert(a@ =~= b@);
    }
    true
}

fn start_char(c: char) -> (b: bool)
    ensures
        b == is_start_char(c),
{
    ('A' <= c && c <= 'Z') || ('a' <= c && c <= 'z') || c == '_'
}

fn continue_char(c: char) -> (b: bool)
    ensures
        b == is_continue_char(c),
{
    start_char(c) || ('0' <= c && c <= '9')
}

fn is_rust_keyword(s: &str) -> (b: bool)
    ensures
        b == is_keyword(s@),
{
    str_eq(s, "as") || str_eq(s, "async") || str_eq(s, "await") || str_eq(s, "break") || str_eq(
        s,
        "const",
    ) || str_eq(s, "continue") || str_eq(s, "crate") || str_eq(s, "dyn") || str_eq(s, "else")
        || str_eq(s, "enum") || str_eq(s, "extern") || str_eq(s, "false") || str_eq(s, "fn")
        || str_eq(s, "for") || str_eq(s, "if") || str_eq(s, "impl") || str_eq(s, "in") || str_eq(
        s,
        "let",
    ) || str_eq(s, "loop") || str_eq(s, "match") || str_eq(s, "mod") || str_eq(s, "move") || str_eq(
        s,
        "mut",
    ) || str_eq(s, "pub") || str_eq(s, "ref") || str_eq(s, "return") || str_eq(s, "self") || str_eq(
        s,
        "Self",
    ) || str_eq(s, "static") || str_eq(s, "struct") || str_eq(s, "super") || str_eq(s, "trait")
        || str_eq(s, "true") || str_eq(s, "type") || str_eq(s, "unsafe") || str_eq(s, "use")
        || str_eq(s, "where") || str_eq(s, "while") || str_eq(s, "abstract") || str_eq(s, "become")
        || str_eq(s, "box") || str_eq(s, "do") || str_eq(s, "final") || str_eq(s, "macro")
        || str_eq(s, "override") || str_eq(s, "priv") || str_eq(s, "try") || str_eq(s, "typeof")
        || str_eq(s, "unsized") || str_eq(s, "virtual") || str_eq(s, "yield")
}

/// Decide whether `ident` is a legal identifier, reporting why not.
pub fn validate_identifier(ident: &str) -> (r: Result<(), Error>)
    ensures
        match r {
            Ok(u) => valid_ident(ident@),
            Err(e) => !valid_ident(ident@) && e == Error::InvalidIdentifier(
                spec_ident_error(ident@),
            ),
        },
{
    let n = ident.unicode_len();
    if n == 0 {
        return Err(Error::InvalidIdentifier(IdentError::Empty));
    }
    if str_eq(ident, "_") {
        proof {
            reveal_strlit("_");
            assert(is_placeholder(ident@));
        }
        return Err(Error::InvalidIdentifier(IdentError::Placeholder));
    }
    proof {
        reveal_strlit("_");
        assert(!is_placeholder(ident@)) by {
            if is_placeholder(ident@) {
                assert(ident@ =~= "_"@);
            }
        }
    }
    if is_rust_keyword(ident) {
        return Err(Error::InvalidIdentifier(IdentError::ReservedWord));
    }
    let mut i: usize = 0;
    while i < n
        invariant
            n == ident@.len(),
            0 < n,
            0 <= i <= n,
            !is_placeholder(ident@),
            !is_keyword(ident@),
            forall|j: int| 0 <= j < i ==> char_ok_at(ident@, j),
        decreases n - i,
    {
        let c = ident.get_char(i);
        let ok = if i == 0 {
            start_char(c)
        } else {
            continue_char(c)
        };
        if !ok {
            proof {
                lemma_first_bad_pinned(ident@, 0, i as int);
            }
            return Err(Error::InvalidIdentifier(IdentError::InvalidChar(i)));
        }
        i += 1;
    }
    Ok(())
}

/// The characters of `s` that may continue an identifier, in order.
pub open spec fn keep_continue(s: Seq<char>) -> Seq<char>
    decreases s.len(),
{
    if s.len() == 0 {
        Seq::empty()
    } else if is_continue_char(s.last()) {
        keep_continue(s.drop_last()).push(s.last())
    } else {
        keep_continue(s.drop_last())
    }
}

/// The core of the repaired form of `s`: drop characters until one may
/// open an identifier, then keep exactly the characters that may continue
/// one.
pub open spec fn sanitize_core(s: Seq<char>) -> Seq<char>
    decreases s.len(),
{
    if s.len() == 0 {
        Seq::empty()
    } else if is_start_char(s[0]) {
        seq![s[0]] + keep_continue(s.drop_first())
    } else {
        sanitize_core(s.drop_first())
    }
}

/// The repaired form of `s`: its core, with `_` appended when the core
/// collides with a reserved word.
pub open spec fn spec_sanitized(s: Seq<char>) -> Seq<char> {
    if is_keyword(sanitize_core(s)) {
        sanitize_core(s).push('_')
    } else {
        sanitize_core(s)
    }
}

/// Sanitization of `s` succeeds: the repaired form is a usable name.
pub open spec fn sanitize_ok(s: Seq<char>) -> bool {
    spec_sanitized(s).len() > 0 && !is_placeholder(spec_sanitized(s))
}

proof fn lemma_core_snoc_unfound(p: Seq<char>, c: char)
    requires
        forall|j: int| 0 <= j < p.len() ==> !is_start_char(p[j]),
    ensures
        sanitize_core(p) == Seq::<char>::empty(),
        sanitize_core(p.push(c)) == if is_start_char(c) {
            seq![c]
        } else {
            Seq::<char>::empty()
        },
    decreases p.len(),
{
    if p.len() == 0 {
        assert(p.push(c) =~= seq![c]);
        assert(p.push(c)[0] == c);
        assert(p.push(c).drop_first() =~= Seq::<char>::empty());
        assert(keep_continue(Seq::<char>::empty()) =~= Seq::<char>::empty());
        if is_start_char(c) {
            assert(sanitize_core(p.push(c)) == seq![p.push(c)[0]] + keep_continue(
                p.push(c).drop_first(),
            ));
            assert(seq![c] + keep_continue(Seq::<char>::empty()) =~= seq![c]);
            assert(sanitize_core(p.push(c)) == seq![c]);
        } else {
            assert(sanitize_core(p.push(c)) == sanitize_core(p.push(c).drop_first()));
            assert(sanitize_core(p.push(c)) == Seq::<char>::empty());
        }
    } else {
        assert(p.push(c)[0] == p[0]);
        assert(!is_start_char(p[0]));
        assert(p.push(c).drop_first() =~= p.drop_first().push(c));
        assert(forall|j: int|
            0 <= j < p.drop_first().len() ==> !is_start_char(p.drop_first()[j]));
        lemma_core_snoc_unfound(p.drop_first(), c);
        assert(sanitize_core(p.push(c)) == sanitize_core(p.push(c).drop_first()));
        assert(sanitize_core(p.push(c).drop_first()) == sanitize_core(p.drop_first().push(c)));
    }
}

proof fn lemma_core_snoc_found(p: Seq<char>, c: char)
    requires
        exists|j: int| 0 <= j < p.len() && is_start_char(p[j]),
    ensures
        sanitize_core(p.push(c)) == if is_continue_char(c) {
            sanitize_core(p).push(c)
        } else {
            sanitize_core(p)
        },
    decreases p.len(),
{
    assert(p.len() > 0);
    assert(p.push(c)[0] == p[0]);
    assert(p.push(c).drop_first() =~= p.drop_first().push(c));
    if is_start_char(p[0]) {
        let x = p.drop_first();
        assert(x.push(c).drop_last() =~= x);
        assert(x.push(c).last() == c);
        if is_continue_char(c) {
            assert(seq![p[0]] + keep_continue(x).push(c) =~= (seq![p[0]] + keep_continue(
                x,
            )).push(c));
        }
    } else {
        let j = choose|j: int| 0 <= j < p.len() && is_start_char(p[j]);
        assert(j > 0);
        assert(p.drop_first()[j - 1] == p[j]);
        lemma_core_snoc_found(p.drop_first(), c);
    }
}

proof fn lemma_keep_continue_all(s: Seq<char>)
    requires
        forall|j: int| 0 <= j < s.len() ==> is_continue_char(s[j]),
    ensures
        keep_continue(s) == s,
    decreases s.len(),
{
    if s.len() > 0 {
        lemma_keep_continue_all(s.drop_last());
        assert(keep_continue(s.drop_last()).push(s.last()) =~= s);
    }
}

/// A string that passes validation is returned by sanitization unchanged:
/// for every `s` with `valid_ident(s)`, the repaired form of `s` is `s`
/// itself, and sanitization succeeds on it.
pub proof fn lemma_sanitize_of_valid(s: Seq<char>)
    requires
        valid_ident(s),
    ensures
        spec_sanitized(s) == s,
        sanitize_ok(s),
{
    assert(char_ok_at(s, 0));
    let rest = s.drop_first();
    assert(forall|j: int| 0 <= j < rest.len() ==> is_continue_char(rest[j])) by {
        assert forall|j: int| 0 <= j < rest.len() implies is_continue_char(rest[j]) by {
            assert(rest[j] == s[j + 1]);
            assert(char_ok_at(s, j + 1));
        }
    }
    lemma_keep_continue_all(rest);
    assert(seq![s[0]] + rest =~= s);
}

/// The classes of strings that validation rejects: the empty string, the
/// lone placeholder `_`, every reserved word, every string opening with a
/// digit, and every string holding a character outside letters, digits
/// and `_`.
pub proof fn lemma_validate_rejects(s: Seq<char>)
    ensures
        s.len() == 0 ==> !valid_ident(s),
        is_placeholder(s) ==> !valid_ident(s),
        is_keyword(s) ==> !valid_ident(s),
        s.len() > 0 && '0' <= s[0] && s[0] <= '9' ==> !valid_ident(s),
        (exists|i: int| 0 <= i < s.len() && !is_continue_char(s[i])) ==> !valid_ident(s),
{
    if s.len() > 0 && '0' <= s[0] && s[0] <= '9' {
        assert(!char_ok_at(s, 0));
    }
    if exists|i: int| 0 <= i < s.len() && !is_continue_char(s[i]) {
        let i = choose|i: int| 0 <= i < s.len() && !is_continue_char(s[i]);
        assert(!char_ok_at(s, i));
    }
}

/// Relies on `String::push`: appends exactly the given character at the
/// end of the string.
#[verifier::external_body]
fn push_char(s: &mut String, c: char)
    ensures
        final(s)@ == old(s)@.push(c),
{
    s.push(c);
}

/// Repair `ident` into a legal identifier if possible: a string that
/// already validates is returned unchanged; otherwise characters are
/// dropped until one may open an identifier, every later character that
/// may not continue one is dropped, and a collision with a reserved word
/// gains a trailing `_`. Fails when nothing usable is left.
pub fn make_valid_identifier(ident: &str) -> (r: Result<String, Error>)
    ensures
        match r {
            Ok(out) => sanitize_ok(ident@) && out@ == spec_sanitized(ident@),
            Err(e) => !sanitize_ok(ident@) && e == Error::InvalidIdentifier(
                IdentError::NotSanitizable,
            ),
        },
{
    let valid = match validate_identifier(ident) {
        Ok(u) => true,
        Err(e) => false,
    };
    if valid {
        proof {
            lemma_sanitize_of_valid(ident@);
        }
        return Ok(ident.to_owned());
    }
    let n = ident.unicode_len();
    let mut out = String::new();
    let mut found = false;
    let mut i: usize = 0;
    while i < n
        invariant
            n == ident@.len(),
            0 <= i <= n,
            found <==> exists|j: int| 0 <= j < i && is_start_char(ident@[j]),
            out@ == sanitize_core(ident@.subrange(0, i as int)),
        decreases n - i,
    {
        let ghost prefix = ident@.subrange(0, i as int);
        let c = ident.get_char(i);
        proof {
            assert(ident@.subrange(0, i + 1) =~= prefix.push(ident@[i as int]));
        }
        if !found {
            proof {
                lemma_core_snoc_unfound(prefix, c);
            }
            if start_char(c) {
                found = true;
                push_char(&mut out, c);
                proof {
                    assert(Seq::<char>::empty().push(c) =~= seq![c]);
                }
            }
        } else {
            proof {
                let j = choose|j: int| 0 <= j < i && is_start_char(ident@[j]);
                assert(prefix[j] == ident@[j]);
                lemma_core_snoc_found(prefix, c);
            }
            if continue_char(c) {
                push_char(&mut out, c);
            }
        }
        i += 1;
    }
    proof {
        assert(ident@.subrange(0, n as int) =~= ident@);
    }
    if is_rust_keyword(out.as_str()) {
        push_char(&mut out, '_');
    }
    if out.as_str().is_empty() {
        return Err(Error::InvalidIdentifier(IdentError::NotSanitizable));
    }
    if str_eq(out.as_str(), "_") {
        proof {
            reveal_strlit("_");
            assert(is_placeholder(out@));
        }
        return Err(Error::InvalidIdentifier(IdentError::NotSanitizable));
    }
    proof {
        reveal_strlit("_");
        assert(!is_placeholder(out@)) by {
            if is_placeholder(out@) {
                assert(out@ =~= "_"@);
            }
        }
    }
    Ok(out)
}

/// A string guaranteed, at construction time, to be a legal identifier of
/// the target language.
#[derive(Debug)]
pub struct Id(String);

impl View for Id {
    type V = Seq<char>;

    closed spec fn view(&self) -> Seq<char> {
        self.0@
    }
}

impl Clone for Id {
    fn clone(&self) -> (r: Id)
        ensures
            r == *self,
    {
        Id(self.0.clone())
    }
}

impl PartialEq for Id {
    fn eq(&self, other: &Id) -> (r: bool) {
        self.0 == other.0
    }
}

impl vstd::std_specs::cmp::PartialEqSpecImpl for Id {
    open spec fn obeys_eq_spec() -> bool {
        true
    }

    open spec fn eq_spec(&self, other: &Id) -> bool {
        self@ == other@
    }
}

impl Id {
    /// Wrap `ident` as an [`Id`] if it is a legal identifier.
    pub fn new(ident: &str) -> (r: Result<Id, Error>)
        ensures
            match r {
                Ok(id) => valid_ident(ident@) && id@ == ident@,
                Err(e) => !valid_ident(ident@) && e == Error::InvalidIdentifier(
                    spec_ident_error(ident@),
                ),
            },
    {
        match validate_identifier(ident) {
            Ok(u) => Ok(Id(ident.to_owned())),
            Err(e) => Err(e),
        }
    }

    /// Wrap `ident` as an [`Id`], repairing it first if needed; see
    /// [`make_valid_identifier`].
    pub fn make_valid(ident: &str) -> (r: Result<Id, Error>)
        ensures
            match r {
                Ok(id) => sanitize_ok(ident@) && id@ == spec_sanitized(ident@),
                Err(e) => !sanitize_ok(ident@) && e == Error::InvalidIdentifier(
                    IdentError::NotSanitizable,
                ),
            },
    {
        match make_valid_identifier(ident) {
            Ok(s) => Ok(Id(s)),
            Err(e) => Err(e),
        }
    }

    /// The wrapped text of the identifier.
    pub fn as_str(&self) -> (s: &str)
        ensures
            s@ == self@,
    {
        self.0.as_str()
    }
}

} // verus!
