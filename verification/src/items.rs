//! The declarations of the model: records, tagged unions, wrapper types
//! and aliases, together with their members and decorations.
//!
//! Each declaration carries a validated name, a visibility, decorations,
//! and typed members. Records and unions additionally take part in the
//! registry analysis of [`crate::analysis`]; wrapper and alias types only
//! render.

use vstd::prelude::*;
use vstd::slice::slice_index_get;
use vstd::string::StrSliceExecFns;
use vstd::string::StringExecFns;

use crate::casing::{is_snake_case, snake_of, to_snake_case};
use crate::order::{lemma_lex_transitive, lemma_lex_trichotomy, lex_lt, str_lt};
use crate::error::{Error, IdentError};
use crate::ident::{sanitize_ok, spec_sanitized, Id};
use crate::render::{render_delimited, spec_join, Render};
use crate::typebuilder::{spec_named_root, type_eqv, Type};

verus! {

/// The visibility of a declaration.
#[derive(Debug, Clone, Copy, PartialEq, Eq, Structural)]
pub enum Visibility {
    /// Visible in the defining module only; renders as nothing.
    Private,
    /// Visible everywhere.
    Public,
    /// Visible in the defining crate.
    Crate,
}

impl Default for Visibility {
    fn default() -> (r: Visibility)
        ensures
            r == Visibility::Private,
    {
        Visibility::Private
    }
}

impl Render for Visibility {
    open spec fn spec_render(&self) -> Seq<char> {
        match self {
            Visibility::Private => Seq::empty(),
            Visibility::Public => "pub "@,
            Visibility::Crate => "pub(crate) "@,
        }
    }

    fn render(&self) -> (r: String)
        ensures
            r@ == self.spec_render(),
    {
        match self {
            Visibility::Private => {
                let s = String::new();
                s
            },
            Visibility::Public => "pub ".to_owned(),
            Visibility::Crate => "pub(crate) ".to_owned(),
        }
    }
}

/// A derivable trait to decorate a declaration with.
#[derive(Debug)]
pub enum Derive {
    Debug,
    Copy,
    Clone,
    PartialEq,
    Eq,
    Hash,
    PartialOrd,
    Ord,
    /// Any other derive, by its spelled-out name.
    Custom(String),
}

/// Two derives name the same trait.
pub open spec fn derive_eqv(a: Derive, b: Derive) -> bool {
    match (a, b) {
        (Derive::Debug, Derive::Debug) => true,
        (Derive::Copy, Derive::Copy) => true,
        (Derive::Clone, Derive::Clone) => true,
        (Derive::PartialEq, Derive::PartialEq) => true,
        (Derive::Eq, Derive::Eq) => true,
        (Derive::Hash, Derive::Hash) => true,
        (Derive::PartialOrd, Derive::PartialOrd) => true,
        (Derive::Ord, Derive::Ord) => true,
        (Derive::Custom(x), Derive::Custom(y)) => x@ == y@,
        _ => false,
    }
}

impl Clone for Derive {
    fn clone(&self) -> (r: Derive)
        ensures
            r == *self,
    {
        match self {
            Derive::Debug => Derive::Debug,
            Derive::Copy => Derive::Copy,
            Derive::Clone => Derive::Clone,
            Derive::PartialEq => Derive::PartialEq,
            Derive::Eq => Derive::Eq,
            Derive::Hash => Derive::Hash,
            Derive::PartialOrd => Derive::PartialOrd,
            Derive::Ord => Derive::Ord,
            Derive::Custom(s) => Derive::Custom(s.clone()),
        }
    }
}

impl PartialEq for Derive {
    fn eq(&self, other: &Derive) -> (r: bool) {
        match (self, other) {
            (Derive::Debug, Derive::Debug) => true,
            (Derive::Copy, Derive::Copy) => true,
            (Derive::Clone, Derive::Clone) => true,
            (Derive::PartialEq, Derive::PartialEq) => true,
            (Derive::Eq, Derive::Eq) => true,
            (Derive::Hash, Derive::Hash) => true,
            (Derive::PartialOrd, Derive::PartialOrd) => true,
            (Derive::Ord, Derive::Ord) => true,
            (Derive::Custom(x), Derive::Custom(y)) => *x == *y,
            _ => false,
        }
    }
}

impl vstd::std_specs::cmp::PartialEqSpecImpl for Derive {
    open spec fn obeys_eq_spec() -> bool {
        true
    }

    open spec fn eq_spec(&self, other: &Derive) -> bool {
        derive_eqv(*self, *other)
    }
}

impl Render for Derive {
    open spec fn spec_render(&self) -> Seq<char> {
        match self {
            Derive::Debug => "Debug"@,
            Derive::Copy => "Copy"@,
            Derive::Clone => "Clone"@,
            Derive::PartialEq => "PartialEq"@,
            Derive::Eq => "Eq"@,
            Derive::Hash => "Hash"@,
            Derive::PartialOrd => "PartialOrd"@,
            Derive::Ord => "Ord"@,
            Derive::Custom(s) => s@,
        }
    }

    fn render(&self) -> (r: String)
        ensures
            r@ == self.spec_render(),
    {
        match self {
            Derive::Debug => "Debug".to_owned(),
            Derive::Copy => "Copy".to_owned(),
            Derive::Clone => "Clone".to_owned(),
            Derive::PartialEq => "PartialEq".to_owned(),
            Derive::Eq => "Eq".to_owned(),
            Derive::Hash => "Hash".to_owned(),
            Derive::PartialOrd => "PartialOrd".to_owned(),
            Derive::Ord => "Ord".to_owned(),
            Derive::Custom(s) => s.clone(),
        }
    }
}

/// A compilation condition to decorate a declaration with.
#[derive(Debug)]
pub enum Cfg {
    /// Active under test builds.
    Test,
    /// Active on the given operating system.
    TargetOs(String),
    /// Any other condition, spelled out.
    Custom(String),
}

/// Two conditions are the same condition.
pub open spec fn cfg_eqv(a: Cfg, b: Cfg) -> bool {
    match (a, b) {
        (Cfg::Test, Cfg::Test) => true,
        (Cfg::TargetOs(x), Cfg::TargetOs(y)) => x@ == y@,
        (Cfg::Custom(x), Cfg::Custom(y)) => x@ == y@,
        _ => false,
    }
}

impl Clone for Cfg {
    fn clone(&self) -> (r: Cfg)
        ensures
            r == *self,
    {
        match self {
            Cfg::Test => Cfg::Test,
            Cfg::TargetOs(s) => Cfg::TargetOs(s.clone()),
            Cfg::Custom(s) => Cfg::Custom(s.clone()),
        }
    }
}

impl PartialEq for Cfg {
    fn eq(&self, other: &Cfg) -> (r: bool) {
        match (self, other) {
            (Cfg::Test, Cfg::Test) => true,
            (Cfg::TargetOs(x), Cfg::TargetOs(y)) => *x == *y,
            (Cfg::Custom(x), Cfg::Custom(y)) => *x == *y,
            _ => false,
        }
    }
}

impl vstd::std_specs::cmp::PartialEqSpecImpl for Cfg {
    open spec fn obeys_eq_spec() -> bool {
        true
    }

    open spec fn eq_spec(&self, other: &Cfg) -> bool {
        cfg_eqv(*self, *other)
    }
}

impl Render for Cfg {
    open spec fn spec_render(&self) -> Seq<char> {
        match self {
            Cfg::Test => "test"@,
            Cfg::TargetOs(s) => "target_os = \""@ + s@ + "\""@,
            Cfg::Custom(s) => s@,
        }
    }

    fn render(&self) -> (r: String)
        ensures
            r@ == self.spec_render(),
    {
        match self {
            Cfg::Test => "test".to_owned(),
            Cfg::TargetOs(s) => {
                let mut out = "target_os = \"".to_owned();
                out.append(s.as_str());
                out.append("\"");
                proof {
                    assert(out@ =~= "target_os = \""@ + s@ + "\""@);
                }
                out
            },
            Cfg::Custom(s) => s.clone(),
        }
    }
}

impl Render for String {
    open spec fn spec_render(&self) -> Seq<char> {
        self@
    }

    fn render(&self) -> (r: String)
        ensures
            r@ == self.spec_render(),
    {
        self.clone()
    }
}

/// `s` already holds a derive naming the same trait as `d`.
pub open spec fn seq_has_derive(s: Seq<Derive>, d: Derive) -> bool {
    exists|i: int| 0 <= i < s.len() && derive_eqv(s[i], d)
}

/// `s` already holds the same condition as `c`.
pub open spec fn seq_has_cfg(s: Seq<Cfg>, c: Cfg) -> bool {
    exists|i: int| 0 <= i < s.len() && cfg_eqv(s[i], c)
}

/// `s` already holds the same text as `x`.
pub open spec fn seq_has_text(s: Seq<String>, x: String) -> bool {
    exists|i: int| 0 <= i < s.len() && s[i]@ == x@
}

/// The position of a derive in the fixed order of the derivable traits;
/// custom derives come last.
pub open spec fn derive_rank(d: Derive) -> int {
    match d {
        Derive::Debug => 0,
        Derive::Copy => 1,
        Derive::Clone => 2,
        Derive::PartialEq => 3,
        Derive::Eq => 4,
        Derive::Hash => 5,
        Derive::PartialOrd => 6,
        Derive::Ord => 7,
        Derive::Custom(_) => 8,
    }
}

/// `a` comes strictly before `b` among derives: lower rank first, custom
/// derives against each other by their text.
pub open spec fn derive_lt(a: Derive, b: Derive) -> bool {
    match (a, b) {
        (Derive::Custom(x), Derive::Custom(y)) => lex_lt(x@, y@),
        _ => derive_rank(a) < derive_rank(b),
    }
}

/// The position of a condition in the fixed order of conditions; `test`
/// first, then target systems, then custom conditions.
pub open spec fn cfg_rank(c: Cfg) -> int {
    match c {
        Cfg::Test => 0,
        Cfg::TargetOs(_) => 1,
        Cfg::Custom(_) => 2,
    }
}

/// `a` comes strictly before `b` among conditions: lower rank first,
/// conditions of the same kind by their text.
pub open spec fn cfg_lt(a: Cfg, b: Cfg) -> bool {
    match (a, b) {
        (Cfg::TargetOs(x), Cfg::TargetOs(y)) => lex_lt(x@, y@),
        (Cfg::Custom(x), Cfg::Custom(y)) => lex_lt(x@, y@),
        _ => cfg_rank(a) < cfg_rank(b),
    }
}

/// `a` comes strictly before `b` among free-form attributes: by text.
pub open spec fn text_lt(a: String, b: String) -> bool {
    lex_lt(a@, b@)
}

/// The derives are strictly ascending, hence free of duplicates.
pub open spec fn derive_sorted(s: Seq<Derive>) -> bool {
    forall|i: int, j: int| 0 <= i < j < s.len() ==> derive_lt(s[i], s[j])
}

/// The conditions are strictly ascending, hence free of duplicates.
pub open spec fn cfg_sorted(s: Seq<Cfg>) -> bool {
    forall|i: int, j: int| 0 <= i < j < s.len() ==> cfg_lt(s[i], s[j])
}

/// The texts are strictly ascending, hence free of duplicates.
pub open spec fn text_sorted(s: Seq<String>) -> bool {
    forall|i: int, j: int| 0 <= i < j < s.len() ==> text_lt(s[i], s[j])
}

proof fn lemma_derive_trichotomy(a: Derive, b: Derive)
    ensures
        derive_eqv(a, b) || derive_lt(a, b) || derive_lt(b, a),
{
    match (a, b) {
        (Derive::Custom(x), Derive::Custom(y)) => {
            lemma_lex_trichotomy(x@, y@);
        },
        _ => {},
    }
}

proof fn lemma_derive_transitive(a: Derive, b: Derive, c: Derive)
    requires
        derive_lt(a, b),
        derive_lt(b, c),
    ensures
        derive_lt(a, c),
{
    match (a, b) {
        (Derive::Custom(x), Derive::Custom(y)) => {
            match c {
                Derive::Custom(z) => {
                    lemma_lex_transitive(x@, y@, z@);
                },
                _ => {},
            }
        },
        _ => {},
    }
}

proof fn lemma_cfg_trichotomy(a: Cfg, b: Cfg)
    ensures
        cfg_eqv(a, b) || cfg_lt(a, b) || cfg_lt(b, a),
{
    match (a, b) {
        (Cfg::TargetOs(x), Cfg::TargetOs(y)) => {
            lemma_lex_trichotomy(x@, y@);
        },
        (Cfg::Custom(x), Cfg::Custom(y)) => {
            lemma_lex_trichotomy(x@, y@);
        },
        _ => {},
    }
}

proof fn lemma_cfg_transitive(a: Cfg, b: Cfg, c: Cfg)
    requires
        cfg_lt(a, b),
        cfg_lt(b, c),
    ensures
        cfg_lt(a, c),
{
    match (a, c) {
        (Cfg::TargetOs(x), Cfg::TargetOs(z)) => {
            match b {
                Cfg::TargetOs(y) => {
                    lemma_lex_transitive(x@, y@, z@);
                },
                _ => {},
            }
        },
        (Cfg::Custom(x), Cfg::Custom(z)) => {
            match b {
                Cfg::Custom(y) => {
                    lemma_lex_transitive(x@, y@, z@);
                },
                _ => {},
            }
        },
        _ => {},
    }
}

proof fn lemma_text_trichotomy(a: String, b: String)
    ensures
        a@ == b@ || text_lt(a, b) || text_lt(b, a),
{
    lemma_lex_trichotomy(a@, b@);
}

proof fn lemma_text_transitive(a: String, b: String, c: String)
    requires
        text_lt(a, b),
        text_lt(b, c),
    ensures
        text_lt(a, c),
{
    lemma_lex_transitive(a@, b@, c@);
}

/// The index at or after `k` where `d` belongs in `s`: the first index
/// whose element comes after `d`, or `s.len()`.
pub open spec fn derive_insert_pos(s: Seq<Derive>, d: Derive, k: int) -> int
    recommends
        0 <= k <= s.len(),
    decreases s.len() - k,
{
    if k >= s.len() {
        k
    } else if derive_lt(d, s[k]) {
        k
    } else {
        derive_insert_pos(s, d, k + 1)
    }
}

/// The index at or after `k` where `c` belongs in `s`.
pub open spec fn cfg_insert_pos(s: Seq<Cfg>, c: Cfg, k: int) -> int
    recommends
        0 <= k <= s.len(),
    decreases s.len() - k,
{
    if k >= s.len() {
        k
    } else if cfg_lt(c, s[k]) {
        k
    } else {
        cfg_insert_pos(s, c, k + 1)
    }
}

/// The index at or after `k` where `x` belongs in `s`.
pub open spec fn text_insert_pos(s: Seq<String>, x: String, k: int) -> int
    recommends
        0 <= k <= s.len(),
    decreases s.len() - k,
{
    if k >= s.len() {
        k
    } else if text_lt(x, s[k]) {
        k
    } else {
        text_insert_pos(s, x, k + 1)
    }
}

/// `s` with `d` placed at its position; unchanged when an equal derive is
/// already present.
pub open spec fn spec_insert_derive(s: Seq<Derive>, d: Derive) -> Seq<Derive> {
    if seq_has_derive(s, d) {
        s
    } else {
        s.insert(derive_insert_pos(s, d, 0), d)
    }
}

/// `s` with `c` placed at its position; unchanged when an equal condition
/// is already present.
pub open spec fn spec_insert_cfg(s: Seq<Cfg>, c: Cfg) -> Seq<Cfg> {
    if seq_has_cfg(s, c) {
        s
    } else {
        s.insert(cfg_insert_pos(s, c, 0), c)
    }
}

/// `s` with `x` placed at its position; unchanged when the same text is
/// already present.
pub open spec fn spec_insert_text(s: Seq<String>, x: String) -> Seq<String> {
    if seq_has_text(s, x) {
        s
    } else {
        s.insert(text_insert_pos(s, x, 0), x)
    }
}

/// `base` with every entry of `add` placed at its position, in order.
pub open spec fn add_derives(base: Seq<Derive>, add: Seq<Derive>) -> Seq<Derive>
    decreases add.len(),
{
    if add.len() == 0 {
        base
    } else {
        add_derives(spec_insert_derive(base, add[0]), add.drop_first())
    }
}

/// `base` with every entry of `add` placed at its position, in order.
pub open spec fn add_cfgs(base: Seq<Cfg>, add: Seq<Cfg>) -> Seq<Cfg>
    decreases add.len(),
{
    if add.len() == 0 {
        base
    } else {
        add_cfgs(spec_insert_cfg(base, add[0]), add.drop_first())
    }
}

/// `base` with every entry of `add` placed at its position, in order.
pub open spec fn add_texts(base: Seq<String>, add: Seq<String>) -> Seq<String>
    decreases add.len(),
{
    if add.len() == 0 {
        base
    } else {
        add_texts(spec_insert_text(base, add[0]), add.drop_first())
    }
}

proof fn lemma_derive_pos_pinned(s: Seq<Derive>, d: Derive, k: int, p: int)
    requires
        0 <= k <= p <= s.len(),
        forall|j: int| k <= j < p ==> !derive_lt(d, s[j]),
        p == s.len() || derive_lt(d, s[p]),
    ensures
        derive_insert_pos(s, d, k) == p,
    decreases p - k,
{
    if k < p {
        lemma_derive_pos_pinned(s, d, k + 1, p);
    }
}

proof fn lemma_cfg_pos_pinned(s: Seq<Cfg>, c: Cfg, k: int, p: int)
    requires
        0 <= k <= p <= s.len(),
        forall|j: int| k <= j < p ==> !cfg_lt(c, s[j]),
        p == s.len() || cfg_lt(c, s[p]),
    ensures
        cfg_insert_pos(s, c, k) == p,
    decreases p - k,
{
    if k < p {
        lemma_cfg_pos_pinned(s, c, k + 1, p);
    }
}

proof fn lemma_text_pos_pinned(s: Seq<String>, x: String, k: int, p: int)
    requires
        0 <= k <= p <= s.len(),
        forall|j: int| k <= j < p ==> !text_lt(x, s[j]),
        p == s.len() || text_lt(x, s[p]),
    ensures
        text_insert_pos(s, x, k) == p,
    decreases p - k,
{
    if k < p {
        lemma_text_pos_pinned(s, x, k + 1, p);
    }
}

proof fn lemma_derive_pos_bounds(s: Seq<Derive>, d: Derive, k: int)
    requires
        0 <= k <= s.len(),
    ensures
        k <= derive_insert_pos(s, d, k) <= s.len(),
        forall|j: int| k <= j < derive_insert_pos(s, d, k) ==> !derive_lt(d, s[j]),
        derive_insert_pos(s, d, k) < s.len() ==> derive_lt(d, s[derive_insert_pos(s, d, k)]),
    decreases s.len() - k,
{
    if k < s.len() && !derive_lt(d, s[k]) {
        lemma_derive_pos_bounds(s, d, k + 1);
    }
}

proof fn lemma_cfg_pos_bounds(s: Seq<Cfg>, c: Cfg, k: int)
    requires
        0 <= k <= s.len(),
    ensures
        k <= cfg_insert_pos(s, c, k) <= s.len(),
        forall|j: int| k <= j < cfg_insert_pos(s, c, k) ==> !cfg_lt(c, s[j]),
        cfg_insert_pos(s, c, k) < s.len() ==> cfg_lt(c, s[cfg_insert_pos(s, c, k)]),
    decreases s.len() - k,
{
    if k < s.len() && !cfg_lt(c, s[k]) {
        lemma_cfg_pos_bounds(s, c, k + 1);
    }
}

proof fn lemma_text_pos_bounds(s: Seq<String>, x: String, k: int)
    requires
        0 <= k <= s.len(),
    ensures
        k <= text_insert_pos(s, x, k) <= s.len(),
        forall|j: int| k <= j < text_insert_pos(s, x, k) ==> !text_lt(x, s[j]),
        text_insert_pos(s, x, k) < s.len() ==> text_lt(x, s[text_insert_pos(s, x, k)]),
    decreases s.len() - k,
{
    if k < s.len() && !text_lt(x, s[k]) {
        lemma_text_pos_bounds(s, x, k + 1);
    }
}

proof fn lemma_insert_derive_sorted(s: Seq<Derive>, d: Derive)
    requires
        derive_sorted(s),
    ensures
        derive_sorted(spec_insert_derive(s, d)),
{
    if !seq_has_derive(s, d) {
        let p = derive_insert_pos(s, d, 0);
        lemma_derive_pos_bounds(s, d, 0);
        let r = s.insert(p, d);
        s.insert_ensures(p, d);
        assert forall|i: int, j: int| 0 <= i < j < r.len() implies derive_lt(r[i], r[j]) by {
            if j < p {
                assert(r[i] == s[i] && r[j] == s[j]);
            } else if j == p {
                assert(r[i] == s[i] && r[j] == d);
                assert(!derive_lt(d, s[i]));
                assert(!derive_eqv(s[i], d));
                lemma_derive_trichotomy(s[i], d);
            } else if i < p {
                assert(r[i] == s[i] && r[j] == s[j - 1]);
            } else if i == p {
                assert(r[i] == d && r[j] == s[j - 1]);
                assert(derive_lt(d, s[p]));
                if j - 1 > p {
                    lemma_derive_transitive(d, s[p], s[j - 1]);
                }
            } else {
                assert(r[i] == s[i - 1] && r[j] == s[j - 1]);
            }
        }
    }
}

proof fn lemma_cfg_chain(s: Seq<Cfg>, i: int, j: int)
    requires
        forall|k: int| 0 <= k < s.len() - 1 ==> cfg_lt(#[trigger] s[k], s[k + 1]),
        0 <= i < j < s.len(),
    ensures
        cfg_lt(s[i], s[j]),
    decreases j - i,
{
    if j > i + 1 {
        lemma_cfg_chain(s, i, j - 1);
        lemma_cfg_transitive(s[i], s[j - 1], s[j]);
    }
}

proof fn lemma_insert_cfg_sorted(s: Seq<Cfg>, c: Cfg)
    requires
        cfg_sorted(s),
    ensures
        cfg_sorted(spec_insert_cfg(s, c)),
{
    if !seq_has_cfg(s, c) {
        let p = cfg_insert_pos(s, c, 0);
        lemma_cfg_pos_bounds(s, c, 0);
        let r = s.insert(p, c);
        s.insert_ensures(p, c);
        assert forall|k: int| 0 <= k < r.len() - 1 implies cfg_lt(#[trigger] r[k], r[k + 1]) by {
            if k + 1 < p {
                assert(r[k] == s[k] && r[k + 1] == s[k + 1]);
            } else if k + 1 == p {
                assert(r[k] == s[k] && r[k + 1] == c);
                assert(!cfg_lt(c, s[k]));
                assert(!cfg_eqv(s[k], c));
                lemma_cfg_trichotomy(s[k], c);
            } else if k == p {
                assert(r[k] == c && r[k + 1] == s[p]);
                assert(cfg_lt(c, s[p]));
            } else {
                assert(r[k] == s[k - 1] && r[k + 1] == s[k]);
            }
        }
        assert forall|i: int, j: int| 0 <= i < j < r.len() implies cfg_lt(r[i], r[j]) by {
            lemma_cfg_chain(r, i, j);
        }
    }
}

proof fn lemma_insert_text_sorted(s: Seq<String>, x: String)
    requires
        text_sorted(s),
    ensures
        text_sorted(spec_insert_text(s, x)),
{
    if !seq_has_text(s, x) {
        let p = text_insert_pos(s, x, 0);
        lemma_text_pos_bounds(s, x, 0);
        let r = s.insert(p, x);
        s.insert_ensures(p, x);
        assert forall|i: int, j: int| 0 <= i < j < r.len() implies text_lt(r[i], r[j]) by {
            if j < p {
                assert(r[i] == s[i] && r[j] == s[j]);
            } else if j == p {
                assert(r[i] == s[i] && r[j] == x);
                assert(!text_lt(x, s[i]));
                assert(s[i]@ != x@);
                lemma_text_trichotomy(s[i], x);
            } else if i < p {
                assert(r[i] == s[i] && r[j] == s[j - 1]);
            } else if i == p {
                assert(r[i] == x && r[j] == s[j - 1]);
                assert(text_lt(x, s[p]));
                if j - 1 > p {
                    lemma_text_transitive(x, s[p], s[j - 1]);
                }
            } else {
                assert(r[i] == s[i - 1] && r[j] == s[j - 1]);
            }
        }
    }
}

proof fn lemma_insert_derive_membership(s: Seq<Derive>, d: Derive)
    ensures
        forall|x: Derive|
            seq_has_derive(spec_insert_derive(s, d), x) <==> (seq_has_derive(s, x)
                || derive_eqv(d, x)),
{
    if seq_has_derive(s, d) {
        assert forall|x: Derive|
            seq_has_derive(spec_insert_derive(s, d), x) <==> (seq_has_derive(s, x) || derive_eqv(
            d,
            x,
        )) by {
            if derive_eqv(d, x) {
                let i = choose|i: int| 0 <= i < s.len() && derive_eqv(s[i], d);
                assert(derive_eqv(s[i], x)) by {
                    match (s[i], d, x) {
                        (Derive::Custom(u), Derive::Custom(v), Derive::Custom(w)) => {},
                        _ => {},
                    }
                }
            }
        }
    } else {
        let p = derive_insert_pos(s, d, 0);
        lemma_derive_pos_bounds(s, d, 0);
        let r = s.insert(p, d);
        s.insert_ensures(p, d);
        assert forall|x: Derive|
            seq_has_derive(r, x) <==> (seq_has_derive(s, x) || derive_eqv(d, x)) by {
            if seq_has_derive(r, x) {
                let i = choose|i: int| 0 <= i < r.len() && derive_eqv(r[i], x);
                if i < p {
                    assert(derive_eqv(s[i], x));
                } else if i > p {
                    assert(r[i] == s[i - 1]);
                    assert(derive_eqv(s[i - 1], x));
                }
            }
            if seq_has_derive(s, x) {
                let i = choose|i: int| 0 <= i < s.len() && derive_eqv(s[i], x);
                if i < p {
                    assert(derive_eqv(r[i], x));
                } else {
                    assert(r[i + 1] == s[i]);
                    assert(derive_eqv(r[i + 1], x));
                }
            }
            if derive_eqv(d, x) {
                assert(derive_eqv(r[p], x));
            }
        }
    }
}

proof fn lemma_insert_cfg_membership(s: Seq<Cfg>, c: Cfg)
    ensures
        forall|x: Cfg|
            seq_has_cfg(spec_insert_cfg(s, c), x) <==> (seq_has_cfg(s, x) || cfg_eqv(c, x)),
{
    if seq_has_cfg(s, c) {
        assert forall|x: Cfg|
            seq_has_cfg(spec_insert_cfg(s, c), x) <==> (seq_has_cfg(s, x) || cfg_eqv(c, x)) by {
            if cfg_eqv(c, x) {
                let i = choose|i: int| 0 <= i < s.len() && cfg_eqv(s[i], c);
                assert(cfg_eqv(s[i], x)) by {
                    match (s[i], c, x) {
                        (Cfg::TargetOs(u), Cfg::TargetOs(v), Cfg::TargetOs(w)) => {},
                        (Cfg::Custom(u), Cfg::Custom(v), Cfg::Custom(w)) => {},
                        _ => {},
                    }
                }
            }
        }
    } else {
        let p = cfg_insert_pos(s, c, 0);
        lemma_cfg_pos_bounds(s, c, 0);
        let r = s.insert(p, c);
        s.insert_ensures(p, c);
        assert forall|x: Cfg| seq_has_cfg(r, x) <==> (seq_has_cfg(s, x) || cfg_eqv(c, x)) by {
            if seq_has_cfg(r, x) {
                let i = choose|i: int| 0 <= i < r.len() && cfg_eqv(r[i], x);
                if i < p {
                    assert(cfg_eqv(s[i], x));
                } else if i > p {
                    assert(r[i] == s[i - 1]);
                    assert(cfg_eqv(s[i - 1], x));
                }
            }
            if seq_has_cfg(s, x) {
                let i = choose|i: int| 0 <= i < s.len() && cfg_eqv(s[i], x);
                if i < p {
                    assert(cfg_eqv(r[i], x));
                } else {
                    assert(r[i + 1] == s[i]);
                    assert(cfg_eqv(r[i + 1], x));
                }
            }
            if cfg_eqv(c, x) {
                assert(cfg_eqv(r[p], x));
            }
        }
    }
}

proof fn lemma_insert_text_membership(s: Seq<String>, t: String)
    ensures
        forall|x: String|
            seq_has_text(spec_insert_text(s, t), x) <==> (seq_has_text(s, x) || t@ == x@),
{
    if seq_has_text(s, t) {
        assert forall|x: String|
            seq_has_text(spec_insert_text(s, t), x) <==> (seq_has_text(s, x) || t@ == x@) by {
            if t@ == x@ {
                let i = choose|i: int| 0 <= i < s.len() && s[i]@ == t@;
                assert(s[i]@ == x@);
            }
        }
    } else {
        let p = text_insert_pos(s, t, 0);
        lemma_text_pos_bounds(s, t, 0);
        let r = s.insert(p, t);
        s.insert_ensures(p, t);
        assert forall|x: String| seq_has_text(r, x) <==> (seq_has_text(s, x) || t@ == x@) by {
            if seq_has_text(r, x) {
                let i = choose|i: int| 0 <= i < r.len() && r[i]@ == x@;
                if i < p {
                    assert(s[i]@ == x@);
                } else if i > p {
                    assert(r[i] == s[i - 1]);
                    assert(s[i - 1]@ == x@);
                }
            }
            if seq_has_text(s, x) {
                let i = choose|i: int| 0 <= i < s.len() && s[i]@ == x@;
                if i < p {
                    assert(r[i]@ == x@);
                } else {
                    assert(r[i + 1] == s[i]);
                    assert(r[i + 1]@ == x@);
                }
            }
            if t@ == x@ {
                assert(r[p]@ == x@);
            }
        }
    }
}

proof fn lemma_add_derives_sorted(base: Seq<Derive>, add: Seq<Derive>)
    requires
        derive_sorted(base),
    ensures
        derive_sorted(add_derives(base, add)),
    decreases add.len(),
{
    if add.len() > 0 {
        lemma_insert_derive_sorted(base, add[0]);
        lemma_add_derives_sorted(spec_insert_derive(base, add[0]), add.drop_first());
    }
}

proof fn lemma_add_cfgs_sorted(base: Seq<Cfg>, add: Seq<Cfg>)
    requires
        cfg_sorted(base),
    ensures
        cfg_sorted(add_cfgs(base, add)),
    decreases add.len(),
{
    if add.len() > 0 {
        lemma_insert_cfg_sorted(base, add[0]);
        lemma_add_cfgs_sorted(spec_insert_cfg(base, add[0]), add.drop_first());
    }
}

proof fn lemma_add_texts_sorted(base: Seq<String>, add: Seq<String>)
    requires
        text_sorted(base),
    ensures
        text_sorted(add_texts(base, add)),
    decreases add.len(),
{
    if add.len() > 0 {
        lemma_insert_text_sorted(base, add[0]);
        lemma_add_texts_sorted(spec_insert_text(base, add[0]), add.drop_first());
    }
}

proof fn lemma_add_derives_membership(base: Seq<Derive>, add: Seq<Derive>)
    ensures
        forall|x: Derive|
            seq_has_derive(add_derives(base, add), x) <==> (seq_has_derive(base, x)
                || seq_has_derive(add, x)),
    decreases add.len(),
{
    if add.len() > 0 {
        lemma_insert_derive_membership(base, add[0]);
        lemma_add_derives_membership(spec_insert_derive(base, add[0]), add.drop_first());
        assert forall|x: Derive|
            seq_has_derive(add, x) <==> (derive_eqv(add[0], x) || seq_has_derive(
            add.drop_first(),
            x,
        )) by {
            if seq_has_derive(add, x) {
                let i = choose|i: int| 0 <= i < add.len() && derive_eqv(add[i], x);
                if i > 0 {
                    assert(add.drop_first()[i - 1] == add[i]);
                    assert(derive_eqv(add.drop_first()[i - 1], x));
                }
            }
            if seq_has_derive(add.drop_first(), x) {
                let i = choose|i: int|
                    0 <= i < add.drop_first().len() && derive_eqv(add.drop_first()[i], x);
                assert(add[i + 1] == add.drop_first()[i]);
                assert(derive_eqv(add[i + 1], x));
            }
        }
    }
}

proof fn lemma_add_cfgs_membership(base: Seq<Cfg>, add: Seq<Cfg>)
    ensures
        forall|x: Cfg|
            seq_has_cfg(add_cfgs(base, add), x) <==> (seq_has_cfg(base, x) || seq_has_cfg(add, x)),
    decreases add.len(),
{
    if add.len() > 0 {
        lemma_insert_cfg_membership(base, add[0]);
        lemma_add_cfgs_membership(spec_insert_cfg(base, add[0]), add.drop_first());
        assert forall|x: Cfg|
            seq_has_cfg(add, x) <==> (cfg_eqv(add[0], x) || seq_has_cfg(add.drop_first(), x)) by {
            if seq_has_cfg(add, x) {
                let i = choose|i: int| 0 <= i < add.len() && cfg_eqv(add[i], x);
                if i > 0 {
                    assert(add.drop_first()[i - 1] == add[i]);
                    assert(cfg_eqv(add.drop_first()[i - 1], x));
                }
            }
            if seq_has_cfg(add.drop_first(), x) {
                let i = choose|i: int|
                    0 <= i < add.drop_first().len() && cfg_eqv(add.drop_first()[i], x);
                assert(add[i + 1] == add.drop_first()[i]);
                assert(cfg_eqv(add[i + 1], x));
            }
        }
    }
}

proof fn lemma_has_text_front(add: Seq<String>)
    requires
        add.len() > 0,
    ensures
        forall|x: String|
            seq_has_text(add, x) <==> (add[0]@ == x@ || seq_has_text(add.drop_first(), x)),
{
    assert forall|x: String|
        seq_has_text(add, x) <==> (add[0]@ == x@ || seq_has_text(add.drop_first(), x)) by {
        if seq_has_text(add, x) {
            let i = choose|i: int| 0 <= i < add.len() && add[i]@ == x@;
            if i > 0 {
                assert(add.drop_first()[i - 1] == add[i]);
                assert(add.drop_first()[i - 1]@ == x@);
            }
        }
        if seq_has_text(add.drop_first(), x) {
            let i = choose|i: int| 0 <= i < add.drop_first().len() && add.drop_first()[i]@ == x@;
            assert(add[i + 1] == add.drop_first()[i]);
            assert(add[i + 1]@ == x@);
        }
    }
}

proof fn lemma_add_texts_membership(base: Seq<String>, add: Seq<String>)
    ensures
        forall|x: String|
            seq_has_text(add_texts(base, add), x) <==> (seq_has_text(base, x) || seq_has_text(
                add,
                x,
            )),
    decreases add.len(),
{
    if add.len() > 0 {
        lemma_insert_text_membership(base, add[0]);
        lemma_add_texts_membership(spec_insert_text(base, add[0]), add.drop_first());
        lemma_has_text_front(add);
    }
}

proof fn lemma_add_derives_noop(s: Seq<Derive>, add: Seq<Derive>)
    requires
        forall|i: int| 0 <= i < add.len() ==> seq_has_derive(s, #[trigger] add[i]),
    ensures
        add_derives(s, add) == s,
    decreases add.len(),
{
    if add.len() > 0 {
        assert(seq_has_derive(s, add[0]));
        assert(forall|i: int|
            0 <= i < add.drop_first().len() ==> #[trigger] add.drop_first()[i] == add[i + 1]);
        lemma_add_derives_noop(s, add.drop_first());
    }
}

/// Adding the same derives twice changes nothing the second time.
pub proof fn lemma_add_derives_idempotent(base: Seq<Derive>, add: Seq<Derive>)
    ensures
        add_derives(add_derives(base, add), add) == add_derives(base, add),
{
    lemma_add_derives_membership(base, add);
    assert forall|i: int|
        0 <= i < add.len() implies seq_has_derive(add_derives(base, add), #[trigger] add[i]) by {
        assert(seq_has_derive(add, add[i]));
    }
    lemma_add_derives_noop(add_derives(base, add), add);
}

proof fn lemma_add_cfgs_noop(s: Seq<Cfg>, add: Seq<Cfg>)
    requires
        forall|i: int| 0 <= i < add.len() ==> seq_has_cfg(s, #[trigger] add[i]),
    ensures
        add_cfgs(s, add) == s,
    decreases add.len(),
{
    if add.len() > 0 {
        assert(seq_has_cfg(s, add[0]));
        assert(forall|i: int|
            0 <= i < add.drop_first().len() ==> #[trigger] add.drop_first()[i] == add[i + 1]);
        lemma_add_cfgs_noop(s, add.drop_first());
    }
}

/// Adding the same conditions twice changes nothing the second time.
pub proof fn lemma_add_cfgs_idempotent(base: Seq<Cfg>, add: Seq<Cfg>)
    ensures
        add_cfgs(add_cfgs(base, add), add) == add_cfgs(base, add),
{
    lemma_add_cfgs_membership(base, add);
    assert forall|i: int|
        0 <= i < add.len() implies seq_has_cfg(add_cfgs(base, add), #[trigger] add[i]) by {
        assert(seq_has_cfg(add, add[i]));
    }
    lemma_add_cfgs_noop(add_cfgs(base, add), add);
}

proof fn lemma_add_texts_noop(s: Seq<String>, add: Seq<String>)
    requires
        forall|i: int| 0 <= i < add.len() ==> seq_has_text(s, #[trigger] add[i]),
    ensures
        add_texts(s, add) == s,
    decreases add.len(),
{
    if add.len() > 0 {
        assert(seq_has_text(s, add[0]));
        assert(forall|i: int|
            0 <= i < add.drop_first().len() ==> #[trigger] add.drop_first()[i] == add[i + 1]);
        lemma_add_texts_noop(s, add.drop_first());
    }
}

/// Adding the same free-form attributes twice changes nothing the second
/// time.
pub proof fn lemma_add_texts_idempotent(base: Seq<String>, add: Seq<String>)
    ensures
        add_texts(add_texts(base, add), add) == add_texts(base, add),
{
    lemma_add_texts_membership(base, add);
    assert forall|i: int|
        0 <= i < add.len() implies seq_has_text(add_texts(base, add), #[trigger] add[i]) by {
        assert(seq_has_text(add, add[i]));
    }
    lemma_add_texts_noop(add_texts(base, add), add);
}

fn derive_rank_exec(d: &Derive) -> (r: usize)
    ensures
        r as int == derive_rank(*d),
{
    match d {
        Derive::Debug => 0,
        Derive::Copy => 1,
        Derive::Clone => 2,
        Derive::PartialEq => 3,
        Derive::Eq => 4,
        Derive::Hash => 5,
        Derive::PartialOrd => 6,
        Derive::Ord => 7,
        Derive::Custom(_) => 8,
    }
}

fn derive_lt_exec(a: &Derive, b: &Derive) -> (r: bool)
    ensures
        r == derive_lt(*a, *b),
{
    match (a, b) {
        (Derive::Custom(x), Derive::Custom(y)) => str_lt(x.as_str(), y.as_str()),
        _ => derive_rank_exec(a) < derive_rank_exec(b),
    }
}

fn cfg_rank_exec(c: &Cfg) -> (r: usize)
    ensures
        r as int == cfg_rank(*c),
{
    match c {
        Cfg::Test => 0,
        Cfg::TargetOs(_) => 1,
        Cfg::Custom(_) => 2,
    }
}

fn cfg_lt_exec(a: &Cfg, b: &Cfg) -> (r: bool)
    ensures
        r == cfg_lt(*a, *b),
{
    match (a, b) {
        (Cfg::TargetOs(x), Cfg::TargetOs(y)) => str_lt(x.as_str(), y.as_str()),
        (Cfg::Custom(x), Cfg::Custom(y)) => str_lt(x.as_str(), y.as_str()),
        _ => cfg_rank_exec(a) < cfg_rank_exec(b),
    }
}

fn has_derive(v: &Vec<Derive>, d: &Derive) -> (r: bool)
    ensures
        r == seq_has_derive(v@, *d),
{
    let mut i: usize = 0;
    while i < v.len()
        invariant
            0 <= i <= v@.len(),
            forall|j: int| 0 <= j < i ==> !derive_eqv(v@[j], *d),
        decreases v@.len() - i,
    {
        if v[i] == *d {
            return true;
        }
        i += 1;
    }
    false
}

fn has_cfg(v: &Vec<Cfg>, c: &Cfg) -> (r: bool)
    ensures
        r == seq_has_cfg(v@, *c),
{
    let mut i: usize = 0;
    while i < v.len()
        invariant
            0 <= i <= v@.len(),
            forall|j: int| 0 <= j < i ==> !cfg_eqv(v@[j], *c),
        decreases v@.len() - i,
    {
        if v[i] == *c {
            return true;
        }
        i += 1;
    }
    false
}

fn has_text(v: &Vec<String>, x: &String) -> (r: bool)
    ensures
        r == seq_has_text(v@, *x),
{
    let mut i: usize = 0;
    while i < v.len()
        invariant
            0 <= i <= v@.len(),
            forall|j: int| 0 <= j < i ==> v@[j]@ != x@,
        decreases v@.len() - i,
    {
        if v[i] == *x {
            return true;
        }
        i += 1;
    }
    false
}

fn insert_derive(list: &mut Vec<Derive>, d: &Derive)
    ensures
        final(list)@ == spec_insert_derive(old(list)@, *d),
{
    if has_derive(list, d) {
        return ;
    }
    let mut p: usize = 0;
    while p < list.len()
        invariant
            list@ == old(list)@,
            0 <= p <= list@.len(),
            !seq_has_derive(list@, *d),
            forall|j: int| 0 <= j < p ==> !derive_lt(*d, list@[j]),
        decreases list@.len() - p,
    {
        if derive_lt_exec(d, &list[p]) {
            proof {
                lemma_derive_pos_pinned(list@, *d, 0, p as int);
            }
            list.insert(p, d.clone());
            return ;
        }
        p += 1;
    }
    proof {
        lemma_derive_pos_pinned(list@, *d, 0, list@.len() as int);
    }
    let n = list.len();
    list.insert(n, d.clone());
}

fn insert_cfg(list: &mut Vec<Cfg>, c: &Cfg)
    ensures
        final(list)@ == spec_insert_cfg(old(list)@, *c),
{
    if has_cfg(list, c) {
        return ;
    }
    let mut p: usize = 0;
    while p < list.len()
        invariant
            list@ == old(list)@,
            0 <= p <= list@.len(),
            !seq_has_cfg(list@, *c),
            forall|j: int| 0 <= j < p ==> !cfg_lt(*c, list@[j]),
        decreases list@.len() - p,
    {
        if cfg_lt_exec(c, &list[p]) {
            proof {
                lemma_cfg_pos_pinned(list@, *c, 0, p as int);
            }
            list.insert(p, c.clone());
            return ;
        }
        p += 1;
    }
    proof {
        lemma_cfg_pos_pinned(list@, *c, 0, list@.len() as int);
    }
    let n = list.len();
    list.insert(n, c.clone());
}

fn insert_text(list: &mut Vec<String>, x: &String)
    ensures
        final(list)@ == spec_insert_text(old(list)@, *x),
{
    if has_text(list, x) {
        return ;
    }
    let mut p: usize = 0;
    while p < list.len()
        invariant
            list@ == old(list)@,
            0 <= p <= list@.len(),
            !seq_has_text(list@, *x),
            forall|j: int| 0 <= j < p ==> !text_lt(*x, list@[j]),
        decreases list@.len() - p,
    {
        if str_lt(x.as_str(), list[p].as_str()) {
            proof {
                lemma_text_pos_pinned(list@, *x, 0, p as int);
            }
            list.insert(p, x.clone());
            return ;
        }
        p += 1;
    }
    proof {
        lemma_text_pos_pinned(list@, *x, 0, list@.len() as int);
    }
    let n = list.len();
    list.insert(n, x.clone());
}

/// The decorations of a declaration: derives, compilation conditions and
/// free-form attributes, each list kept sorted and free of duplicates.
#[derive(Debug)]
pub struct Attributes {
    pub derive: Vec<Derive>,
    pub cfg: Vec<Cfg>,
    pub custom: Vec<String>,
}

impl Default for Attributes {
    fn default() -> (r: Attributes)
        ensures
            r.derive@ == Seq::<Derive>::empty(),
            r.cfg@ == Seq::<Cfg>::empty(),
            r.custom@ == Seq::<String>::empty(),
    {
        Attributes { derive: Vec::new(), cfg: Vec::new(), custom: Vec::new() }
    }
}

impl Clone for Attributes {
    fn clone(&self) -> (r: Attributes)
        ensures
            r.derive@ == self.derive@,
            r.cfg@ == self.cfg@,
            r.custom@ == self.custom@,
    {
        let derive = clone_derives(&self.derive);
        let cfg = clone_cfgs(&self.cfg);
        let custom = clone_texts(&self.custom);
        Attributes { derive, cfg, custom }
    }
}

fn clone_derives(v: &Vec<Derive>) -> (r: Vec<Derive>)
    ensures
        r@ == v@,
{
    let mut out: Vec<Derive> = Vec::new();
    let mut i: usize = 0;
    while i < v.len()
        invariant
            0 <= i <= v@.len(),
            out@ == v@.subrange(0, i as int),
        decreases v@.len() - i,
    {
        out.push(v[i].clone());
        proof {
            assert(v@.subrange(0, i + 1) =~= v@.subrange(0, i as int).push(v@[i as int]));
        }
        i += 1;
    }
    proof {
        assert(v@.subrange(0, v@.len() as int) =~= v@);
    }
    out
}

fn clone_cfgs(v: &Vec<Cfg>) -> (r: Vec<Cfg>)
    ensures
        r@ == v@,
{
    let mut out: Vec<Cfg> = Vec::new();
    let mut i: usize = 0;
    while i < v.len()
        invariant
            0 <= i <= v@.len(),
            out@ == v@.subrange(0, i as int),
        decreases v@.len() - i,
    {
        out.push(v[i].clone());
        proof {
            assert(v@.subrange(0, i + 1) =~= v@.subrange(0, i as int).push(v@[i as int]));
        }
        i += 1;
    }
    proof {
        assert(v@.subrange(0, v@.len() as int) =~= v@);
    }
    out
}

fn clone_texts(v: &Vec<String>) -> (r: Vec<String>)
    ensures
        r@ == v@,
{
    let mut out: Vec<String> = Vec::new();
    let mut i: usize = 0;
    while i < v.len()
        invariant
            0 <= i <= v@.len(),
            out@ == v@.subrange(0, i as int),
        decreases v@.len() - i,
    {
        out.push(v[i].clone());
        proof {
            assert(v@.subrange(0, i + 1) =~= v@.subrange(0, i as int).push(v@[i as int]));
        }
        i += 1;
    }
    proof {
        assert(v@.subrange(0, v@.len() as int) =~= v@);
    }
    out
}

impl Attributes {
    /// Add the given derives, skipping those already present; the stored
    /// list is kept sorted by [`derive_lt`] — the fixed order of the
    /// derivable traits, custom derives last by their text.
    pub fn derive(self, derives: &[Derive]) -> (r: Attributes)
        ensures
            r.derive@ == add_derives(self.derive@, derives@),
            derive_sorted(self.derive@) ==> derive_sorted(r.derive@),
            forall|x: Derive|
                seq_has_derive(r.derive@, x) <==> (seq_has_derive(self.derive@, x)
                    || seq_has_derive(derives@, x)),
            r.cfg@ == self.cfg@,
            r.custom@ == self.custom@,
    {
        let ghost orig = self.derive@;
        let Attributes { derive: mut dlist, cfg, custom } = self;
        proof {
            assert(derives@.subrange(0, derives@.len() as int) =~= derives@);
        }
        let mut i: usize = 0;
        while i < derives.len()
            invariant
                0 <= i <= derives@.len(),
                add_derives(orig, derives@) == add_derives(
                    dlist@,
                    derives@.subrange(i as int, derives@.len() as int),
                ),
            decreases derives@.len() - i,
        {
            let d = slice_index_get(derives, i);
            proof {
                let rest = derives@.subrange(i as int, derives@.len() as int);
                assert(rest[0] == derives@[i as int]);
                assert(rest.drop_first() =~= derives@.subrange(i + 1, derives@.len() as int));
            }
            insert_derive(&mut dlist, d);
            i += 1;
        }
        proof {
            assert(derives@.subrange(derives@.len() as int, derives@.len() as int)
                =~= Seq::<Derive>::empty());
            if derive_sorted(orig) {
                lemma_add_derives_sorted(orig, derives@);
            }
            lemma_add_derives_membership(orig, derives@);
        }
        Attributes { derive: dlist, cfg, custom }
    }

    /// Add the given conditions, skipping those already present; the
    /// stored list is kept sorted by [`cfg_lt`] — `test` first, then
    /// target systems by text, then custom conditions by text.
    pub fn cfg(self, cfgs: &[Cfg]) -> (r: Attributes)
        ensures
            r.cfg@ == add_cfgs(self.cfg@, cfgs@),
            cfg_sorted(self.cfg@) ==> cfg_sorted(r.cfg@),
            forall|x: Cfg|
                seq_has_cfg(r.cfg@, x) <==> (seq_has_cfg(self.cfg@, x) || seq_has_cfg(cfgs@, x)),
            r.derive@ == self.derive@,
            r.custom@ == self.custom@,
    {
        let ghost orig = self.cfg@;
        let Attributes { derive, cfg: mut clist, custom } = self;
        proof {
            assert(cfgs@.subrange(0, cfgs@.len() as int) =~= cfgs@);
        }
        let mut i: usize = 0;
        while i < cfgs.len()
            invariant
                0 <= i <= cfgs@.len(),
                add_cfgs(orig, cfgs@) == add_cfgs(
                    clist@,
                    cfgs@.subrange(i as int, cfgs@.len() as int),
                ),
            decreases cfgs@.len() - i,
        {
            let c = slice_index_get(cfgs, i);
            proof {
                let rest = cfgs@.subrange(i as int, cfgs@.len() as int);
                assert(rest[0] == cfgs@[i as int]);
                assert(rest.drop_first() =~= cfgs@.subrange(i + 1, cfgs@.len() as int));
            }
            insert_cfg(&mut clist, c);
            i += 1;
        }
        proof {
            assert(cfgs@.subrange(cfgs@.len() as int, cfgs@.len() as int) =~= Seq::<Cfg>::empty());
            if cfg_sorted(orig) {
                lemma_add_cfgs_sorted(orig, cfgs@);
            }
            lemma_add_cfgs_membership(orig, cfgs@);
        }
        Attributes { derive, cfg: clist, custom }
    }

    /// Add the given free-form attributes, skipping those already
    /// present; the stored list is kept sorted by text.
    pub fn custom(self, customs: &[String]) -> (r: Attributes)
        ensures
            r.custom@ == add_texts(self.custom@, customs@),
            text_sorted(self.custom@) ==> text_sorted(r.custom@),
            forall|x: String|
                seq_has_text(r.custom@, x) <==> (seq_has_text(self.custom@, x) || seq_has_text(
                    customs@,
                    x,
                )),
            r.derive@ == self.derive@,
            r.cfg@ == self.cfg@,
    {
        let ghost orig = self.custom@;
        let Attributes { derive, cfg, custom: mut xlist } = self;
        proof {
            assert(customs@.subrange(0, customs@.len() as int) =~= customs@);
        }
        let mut i: usize = 0;
        while i < customs.len()
            invariant
                0 <= i <= customs@.len(),
                add_texts(orig, customs@) == add_texts(
                    xlist@,
                    customs@.subrange(i as int, customs@.len() as int),
                ),
            decreases customs@.len() - i,
        {
            let x = slice_index_get(customs, i);
            proof {
                let rest = customs@.subrange(i as int, customs@.len() as int);
                assert(rest[0] == customs@[i as int]);
                assert(rest.drop_first() =~= customs@.subrange(i + 1, customs@.len() as int));
            }
            insert_text(&mut xlist, x);
            i += 1;
        }
        proof {
            assert(customs@.subrange(customs@.len() as int, customs@.len() as int)
                =~= Seq::<String>::empty());
            if text_sorted(orig) {
                lemma_add_texts_sorted(orig, customs@);
            }
            lemma_add_texts_membership(orig, customs@);
        }
        Attributes { derive, cfg, custom: xlist }
    }
}

impl Render for Attributes {
    open spec fn spec_render(&self) -> Seq<char> {
        (if self.derive@.len() > 0 {
            "#[derive("@ + spec_join(self.derive@.map_values(|d: Derive| d.spec_render()), ", "@)
                + ")]"@
        } else {
            Seq::<char>::empty()
        }) + (if self.cfg@.len() > 0 {
            "#[cfg("@ + spec_join(self.cfg@.map_values(|c: Cfg| c.spec_render()), ", "@) + ")]"@
        } else {
            Seq::<char>::empty()
        }) + (if self.custom@.len() > 0 {
            "#["@ + spec_join(self.custom@.map_values(|x: String| x.spec_render()), ", "@) + "]"@
        } else {
            Seq::<char>::empty()
        })
    }

    fn render(&self) -> (r: String)
        ensures
            r@ == self.spec_render(),
    {
        let mut out = String::new();
        if self.derive.len() > 0 {
            out.append("#[derive(");
            let joined = render_delimited(&self.derive, ", ");
            out.append(joined.as_str());
            out.append(")]");
        }
        if self.cfg.len() > 0 {
            out.append("#[cfg(");
            let joined = render_delimited(&self.cfg, ", ");
            out.append(joined.as_str());
            out.append(")]");
        }
        if self.custom.len() > 0 {
            out.append("#[");
            let joined = render_delimited(&self.custom, ", ");
            out.append(joined.as_str());
            out.append("]");
        }
        proof {
            assert(out@ =~= self.spec_render());
        }
        out
    }
}

/// A single attribute of a field or variant.
#[derive(Debug)]
pub enum FieldAttr {
    /// Ask serde to fill the field from its default when absent.
    SerdeDefault,
    /// Ask serde to use the given wire name for the field.
    SerdeRename(String),
    /// Any other attribute, spelled out in full.
    Custom(String),
}

impl Clone for FieldAttr {
    fn clone(&self) -> (r: FieldAttr)
        ensures
            r == *self,
    {
        match self {
            FieldAttr::SerdeDefault => FieldAttr::SerdeDefault,
            FieldAttr::SerdeRename(s) => FieldAttr::SerdeRename(s.clone()),
            FieldAttr::Custom(s) => FieldAttr::Custom(s.clone()),
        }
    }
}

/// Two field attributes carry the same text.
pub open spec fn attr_eqv(a: FieldAttr, b: FieldAttr) -> bool {
    match (a, b) {
        (FieldAttr::SerdeDefault, FieldAttr::SerdeDefault) => true,
        (FieldAttr::SerdeRename(x), FieldAttr::SerdeRename(y)) => x@ == y@,
        (FieldAttr::Custom(x), FieldAttr::Custom(y)) => x@ == y@,
        _ => false,
    }
}

impl PartialEq for FieldAttr {
    fn eq(&self, other: &FieldAttr) -> (r: bool) {
        match (self, other) {
            (FieldAttr::SerdeDefault, FieldAttr::SerdeDefault) => true,
            (FieldAttr::SerdeRename(x), FieldAttr::SerdeRename(y)) => *x == *y,
            (FieldAttr::Custom(x), FieldAttr::Custom(y)) => *x == *y,
            _ => false,
        }
    }
}

impl vstd::std_specs::cmp::PartialEqSpecImpl for FieldAttr {
    open spec fn obeys_eq_spec() -> bool {
        true
    }

    open spec fn eq_spec(&self, other: &FieldAttr) -> bool {
        attr_eqv(*self, *other)
    }
}

impl Render for FieldAttr {
    open spec fn spec_render(&self) -> Seq<char> {
        match self {
            FieldAttr::SerdeDefault => "#[serde(default)]"@,
            FieldAttr::SerdeRename(s) => "#[serde(rename = \""@ + s@ + "\")]"@,
            FieldAttr::Custom(s) => s@,
        }
    }

    fn render(&self) -> (r: String)
        ensures
            r@ == self.spec_render(),
    {
        match self {
            FieldAttr::SerdeDefault => "#[serde(default)]".to_owned(),
            FieldAttr::SerdeRename(s) => {
                let mut out = "#[serde(rename = \"".to_owned();
                out.append(s.as_str());
                out.append("\")]");
                proof {
                    assert(out@ =~= "#[serde(rename = \""@ + s@ + "\")]"@);
                }
                out
            },
            FieldAttr::Custom(s) => s.clone(),
        }
    }
}

/// A named, typed field of a record.
#[derive(Debug)]
pub struct Field {
    pub name: Id,
    pub typ: Type,
    pub attrs: Vec<FieldAttr>,
}

fn clone_field_attrs(v: &Vec<FieldAttr>) -> (r: Vec<FieldAttr>)
    ensures
        r@ == v@,
{
    let mut out: Vec<FieldAttr> = Vec::new();
    let mut i: usize = 0;
    while i < v.len()
        invariant
            0 <= i <= v@.len(),
            out@ == v@.subrange(0, i as int),
        decreases v@.len() - i,
    {
        out.push(v[i].clone());
        proof {
            assert(v@.subrange(0, i + 1) =~= v@.subrange(0, i as int).push(v@[i as int]));
        }
        i += 1;
    }
    proof {
        assert(v@.subrange(0, v@.len() as int) =~= v@);
    }
    out
}

/// `b` carries the same name, the same type and the same attributes as
/// `a`.
pub open spec fn field_equiv(a: Field, b: Field) -> bool {
    a.name == b.name && a.typ == b.typ && a.attrs@ == b.attrs@
}

/// The two field lists agree pointwise; see [`field_equiv`].
pub open spec fn fields_equiv(a: Seq<Field>, b: Seq<Field>) -> bool {
    a.len() == b.len() && forall|i: int| 0 <= i < a.len() ==> field_equiv(a[i], b[i])
}

/// The names of the given fields, in order.
pub open spec fn field_names(fs: Seq<Field>) -> Seq<Seq<char>> {
    fs.map_values(|f: Field| f.name@)
}

/// No two of the given names are the same.
pub open spec fn names_distinct(ns: Seq<Seq<char>>) -> bool {
    forall|i: int, j: int| 0 <= i < j < ns.len() ==> ns[i] != ns[j]
}

/// Index `j` carries the first duplicated name of `ns`.
pub open spec fn is_first_dup(ns: Seq<Seq<char>>, j: int) -> bool {
    &&& 0 <= j < ns.len()
    &&& exists|i: int| 0 <= i < j && ns[i] == ns[j]
    &&& forall|i2: int, j2: int| 0 <= i2 < j2 < j ==> ns[i2] != ns[j2]
}

impl Clone for Field {
    fn clone(&self) -> (r: Field)
        ensures
            field_equiv(*self, r),
    {
        Field {
            name: self.name.clone(),
            typ: self.typ.clone(),
            attrs: clone_field_attrs(&self.attrs),
        }
    }
}

impl Field {
    /// Assemble a field from its parts.
    pub fn new(name: Id, typ: Type, attrs: Vec<FieldAttr>) -> (r: Field)
        ensures
            r.name == name,
            r.typ == typ,
            r.attrs == attrs,
    {
        Field { name, typ, attrs }
    }

    /// Build a field named after `id`. A name already in snake case is
    /// repaired directly; any other name is converted to snake case
    /// first, repaired, and decorated with a rename attribute carrying
    /// the original spelling.
    pub fn with_rename(id: &str, typ: Type) -> (r: Result<Field, Error>)
        ensures
            ({
                let base = if id@ == snake_of(id@) {
                    id@
                } else {
                    snake_of(id@)
                };
                match r {
                    Ok(f) => sanitize_ok(base) && f.name@ == spec_sanitized(base) && f.typ == typ
                        && (if id@ == snake_of(id@) {
                        f.attrs@ == Seq::<FieldAttr>::empty()
                    } else {
                        f.attrs@.len() == 1 && (f.attrs@[0] matches FieldAttr::SerdeRename(s)
                            && s@ == id@)
                    }),
                    Err(e) => !sanitize_ok(base) && e == Error::InvalidIdentifier(
                        IdentError::NotSanitizable,
                    ),
                }
            }),
    {
        if is_snake_case(id) {
            match Id::make_valid(id) {
                Ok(name) => Ok(Field { name, typ, attrs: Vec::new() }),
                Err(e) => Err(e),
            }
        } else {
            let snake = to_snake_case(id);
            match Id::make_valid(snake.as_str()) {
                Ok(name) => {
                    let mut attrs: Vec<FieldAttr> = Vec::new();
                    attrs.push(FieldAttr::SerdeRename(id.to_owned()));
                    Ok(Field { name, typ, attrs })
                },
                Err(e) => Err(e),
            }
        }
    }

    /// The named root of this field's type, if any.
    pub fn get_named_type(&self) -> (r: Option<&Id>)
        ensures
            match r {
                Some(id) => spec_named_root(self.typ) == Some(id@),
                None => spec_named_root(self.typ) is None,
            },
    {
        self.typ.get_named_root()
    }
}

impl Render for Field {
    open spec fn spec_render(&self) -> Seq<char> {
        spec_join(self.attrs@.map_values(|a: FieldAttr| a.spec_render()), " "@) + " "@
            + self.name@ + ":"@ + self.typ.spec_render()
    }

    fn render(&self) -> (r: String)
        ensures
            r@ == self.spec_render(),
    {
        let mut out = render_delimited(&self.attrs, " ");
        out.append(" ");
        out.append(self.name.as_str());
        out.append(":");
        let t = self.typ.render();
        out.append(t.as_str());
        proof {
            assert(out@ =~= self.spec_render());
        }
        out
    }
}

/// A named variant of a tagged union, with an optional payload type.
#[derive(Debug)]
pub struct Variant {
    pub name: Id,
    pub typ: Option<Type>,
    pub attrs: Vec<FieldAttr>,
}

/// `b` carries the same name, the same payload type and the same
/// attributes as `a`.
pub open spec fn variant_equiv(a: Variant, b: Variant) -> bool {
    a.name == b.name && a.typ == b.typ && a.attrs@ == b.attrs@
}

/// The two variant lists agree pointwise; see [`variant_equiv`].
pub open spec fn variants_equiv(a: Seq<Variant>, b: Seq<Variant>) -> bool {
    a.len() == b.len() && forall|i: int| 0 <= i < a.len() ==> variant_equiv(a[i], b[i])
}

impl Clone for Variant {
    fn clone(&self) -> (r: Variant)
        ensures
            variant_equiv(*self, r),
    {
        Variant {
            name: self.name.clone(),
            typ: match &self.typ {
                Some(t) => Some(t.clone()),
                None => None,
            },
            attrs: clone_field_attrs(&self.attrs),
        }
    }
}

impl Variant {
    /// Assemble a variant from its parts.
    pub fn new(name: Id, typ: Option<Type>, attrs: Vec<FieldAttr>) -> (r: Variant)
        ensures
            r.name == name,
            r.typ == typ,
            r.attrs == attrs,
    {
        Variant { name, typ, attrs }
    }

    /// The named root of this variant's payload type, if any.
    pub fn get_named_type(&self) -> (r: Option<&Id>)
        ensures
            match r {
                Some(id) => spec_variant_named_root(*self) == Some(id@),
                None => spec_variant_named_root(*self) is None,
            },
    {
        match &self.typ {
            Some(t) => t.get_named_root(),
            None => None,
        }
    }
}

/// The named root of a variant's payload type: nothing when the variant
/// carries no payload.
pub open spec fn spec_variant_named_root(v: Variant) -> Option<Seq<char>> {
    match v.typ {
        Some(t) => spec_named_root(t),
        None => None,
    }
}

impl Render for Variant {
    open spec fn spec_render(&self) -> Seq<char> {
        spec_join(self.attrs@.map_values(|a: FieldAttr| a.spec_render()), ", "@) + " "@
            + self.name@ + (match self.typ {
            Some(t) => "("@ + t.spec_render() + ")"@,
            None => Seq::<char>::empty(),
        })
    }

    fn render(&self) -> (r: String)
        ensures
            r@ == self.spec_render(),
    {
        let mut out = render_delimited(&self.attrs, ", ");
        out.append(" ");
        out.append(self.name.as_str());
        match &self.typ {
            Some(t) => {
                out.append("(");
                let ts = t.render();
                out.append(ts.as_str());
                out.append(")");
            },
            None => {},
        }
        proof {
            assert(out@ =~= self.spec_render());
        }
        out
    }
}

/// A record declaration: a named, ordered list of typed fields.
#[derive(Debug)]
pub struct Struct {
    pub name: Id,
    pub vis: Visibility,
    pub attrs: Attributes,
    pub fields: Vec<Field>,
}

/// The two attribute lists agree pointwise; see [`attr_eqv`].
pub open spec fn same_attr_seq(a: Seq<FieldAttr>, b: Seq<FieldAttr>) -> bool {
    a.len() == b.len() && forall|i: int| 0 <= i < a.len() ==> attr_eqv(a[i], b[i])
}

/// The two derive lists agree pointwise; see [`derive_eqv`].
pub open spec fn same_derive_seq(a: Seq<Derive>, b: Seq<Derive>) -> bool {
    a.len() == b.len() && forall|i: int| 0 <= i < a.len() ==> derive_eqv(a[i], b[i])
}

/// The two condition lists agree pointwise; see [`cfg_eqv`].
pub open spec fn same_cfg_seq(a: Seq<Cfg>, b: Seq<Cfg>) -> bool {
    a.len() == b.len() && forall|i: int| 0 <= i < a.len() ==> cfg_eqv(a[i], b[i])
}

/// The two text lists agree pointwise.
pub open spec fn same_text_seq(a: Seq<String>, b: Seq<String>) -> bool {
    a.len() == b.len() && forall|i: int| 0 <= i < a.len() ==> a[i]@ == b[i]@
}

/// The two decorations agree list by list.
pub open spec fn same_attributes(a: Attributes, b: Attributes) -> bool {
    same_derive_seq(a.derive@, b.derive@) && same_cfg_seq(a.cfg@, b.cfg@) && same_text_seq(
        a.custom@,
        b.custom@,
    )
}

/// The two fields agree in name, type and attributes.
pub open spec fn same_field(a: Field, b: Field) -> bool {
    a.name@ == b.name@ && type_eqv(a.typ, b.typ) && same_attr_seq(a.attrs@, b.attrs@)
}

/// The two field lists agree pointwise; see [`same_field`].
pub open spec fn same_field_seq(a: Seq<Field>, b: Seq<Field>) -> bool {
    a.len() == b.len() && forall|i: int| 0 <= i < a.len() ==> same_field(a[i], b[i])
}

/// The two variants agree in name, payload type and attributes.
pub open spec fn same_variant(a: Variant, b: Variant) -> bool {
    &&& a.name@ == b.name@
    &&& match (a.typ, b.typ) {
        (Some(x), Some(y)) => type_eqv(x, y),
        (None, None) => true,
        _ => false,
    }
    &&& same_attr_seq(a.attrs@, b.attrs@)
}

/// The two variant lists agree pointwise; see [`same_variant`].
pub open spec fn same_variant_seq(a: Seq<Variant>, b: Seq<Variant>) -> bool {
    a.len() == b.len() && forall|i: int| 0 <= i < a.len() ==> same_variant(a[i], b[i])
}

fn attr_vec_eq(a: &Vec<FieldAttr>, b: &Vec<FieldAttr>) -> (r: bool)
    ensures
        r == same_attr_seq(a@, b@),
{
    if a.len() != b.len() {
        return false;
    }
    let mut i: usize = 0;
    while i < a.len()
        invariant
            a@.len() == b@.len(),
            0 <= i <= a@.len(),
            forall|j: int| 0 <= j < i ==> attr_eqv(a@[j], b@[j]),
        decreases a@.len() - i,
    {
        if !(a[i] == b[i]) {
            return false;
        }
        i += 1;
    }
    true
}

fn derive_vec_eq(a: &Vec<Derive>, b: &Vec<Derive>) -> (r: bool)
    ensures
        r == same_derive_seq(a@, b@),
{
    if a.len() != b.len() {
        return false;
    }
    let mut i: usize = 0;
    while i < a.len()
        invariant
            a@.len() == b@.len(),
            0 <= i <= a@.len(),
            forall|j: int| 0 <= j < i ==> derive_eqv(a@[j], b@[j]),
        decreases a@.len() - i,
    {
        if !(a[i] == b[i]) {
            return false;
        }
        i += 1;
    }
    true
}

fn cfg_vec_eq(a: &Vec<Cfg>, b: &Vec<Cfg>) -> (r: bool)
    ensures
        r == same_cfg_seq(a@, b@),
{
    if a.len() != b.len() {
        return false;
    }
    let mut i: usize = 0;
    while i < a.len()
        invariant
            a@.len() == b@.len(),
            0 <= i <= a@.len(),
            forall|j: int| 0 <= j < i ==> cfg_eqv(a@[j], b@[j]),
        decreases a@.len() - i,
    {
        if !(a[i] == b[i]) {
            return false;
        }
        i += 1;
    }
    true
}

fn text_vec_eq(a: &Vec<String>, b: &Vec<String>) -> (r: bool)
    ensures
        r == same_text_seq(a@, b@),
{
    if a.len() != b.len() {
        return false;
    }
    let mut i: usize = 0;
    while i < a.len()
        invariant
            a@.len() == b@.len(),
            0 <= i <= a@.len(),
            forall|j: int| 0 <= j < i ==> a@[j]@ == b@[j]@,
        decreases a@.len() - i,
    {
        if !(a[i] == b[i]) {
            return false;
        }
        i += 1;
    }
    true
}

fn field_vec_eq(a: &Vec<Field>, b: &Vec<Field>) -> (r: bool)
    ensures
        r == same_field_seq(a@, b@),
{
    if a.len() != b.len() {
        return false;
    }
    let mut i: usize = 0;
    while i < a.len()
        invariant
            a@.len() == b@.len(),
            0 <= i <= a@.len(),
            forall|j: int| 0 <= j < i ==> same_field(a@[j], b@[j]),
        decreases a@.len() - i,
    {
        if !(a[i] == b[i]) {
            return false;
        }
        i += 1;
    }
    true
}

fn variant_vec_eq(a: &Vec<Variant>, b: &Vec<Variant>) -> (r: bool)
    ensures
        r == same_variant_seq(a@, b@),
{
    if a.len() != b.len() {
        return false;
    }
    let mut i: usize = 0;
    while i < a.len()
        invariant
            a@.len() == b@.len(),
            0 <= i <= a@.len(),
            forall|j: int| 0 <= j < i ==> same_variant(a@[j], b@[j]),
        decreases a@.len() - i,
    {
        if !(a[i] == b[i]) {
            return false;
        }
        i += 1;
    }
    true
}

impl PartialEq for Attributes {
    fn eq(&self, other: &Attributes) -> (r: bool) {
        derive_vec_eq(&self.derive, &other.derive) && cfg_vec_eq(&self.cfg, &other.cfg)
            && text_vec_eq(&self.custom, &other.custom)
    }
}

impl vstd::std_specs::cmp::PartialEqSpecImpl for Attributes {
    open spec fn obeys_eq_spec() -> bool {
        true
    }

    open spec fn eq_spec(&self, other: &Attributes) -> bool {
        same_attributes(*self, *other)
    }
}

impl PartialEq for Field {
    fn eq(&self, other: &Field) -> (r: bool) {
        self.name == other.name && self.typ == other.typ && attr_vec_eq(
            &self.attrs,
            &other.attrs,
        )
    }
}

impl vstd::std_specs::cmp::PartialEqSpecImpl for Field {
    open spec fn obeys_eq_spec() -> bool {
        true
    }

    open spec fn eq_spec(&self, other: &Field) -> bool {
        same_field(*self, *other)
    }
}

impl PartialEq for Variant {
    fn eq(&self, other: &Variant) -> (r: bool) {
        self.name == other.name && (match (&self.typ, &other.typ) {
            (Some(x), Some(y)) => *x == *y,
            (None, None) => true,
            _ => false,
        }) && attr_vec_eq(&self.attrs, &other.attrs)
    }
}

impl vstd::std_specs::cmp::PartialEqSpecImpl for Variant {
    open spec fn obeys_eq_spec() -> bool {
        true
    }

    open spec fn eq_spec(&self, other: &Variant) -> bool {
        same_variant(*self, *other)
    }
}

impl PartialEq for Struct {
    fn eq(&self, other: &Struct) -> (r: bool) {
        self.name == other.name && self.vis == other.vis && self.attrs == other.attrs
            && field_vec_eq(&self.fields, &other.fields)
    }
}

impl vstd::std_specs::cmp::PartialEqSpecImpl for Struct {
    open spec fn obeys_eq_spec() -> bool {
        true
    }

    open spec fn eq_spec(&self, other: &Struct) -> bool {
        self.name@ == other.name@ && self.vis == other.vis && same_attributes(
            self.attrs,
            other.attrs,
        ) && same_field_seq(self.fields@, other.fields@)
    }
}

impl PartialEq for Enum {
    fn eq(&self, other: &Enum) -> (r: bool) {
        self.name == other.name && self.vis == other.vis && self.attrs == other.attrs
            && variant_vec_eq(&self.variants, &other.variants)
    }
}

impl vstd::std_specs::cmp::PartialEqSpecImpl for Enum {
    open spec fn obeys_eq_spec() -> bool {
        true
    }

    open spec fn eq_spec(&self, other: &Enum) -> bool {
        self.name@ == other.name@ && self.vis == other.vis && same_attributes(
            self.attrs,
            other.attrs,
        ) && same_variant_seq(self.variants@, other.variants@)
    }
}

impl PartialEq for NewType {
    fn eq(&self, other: &NewType) -> (r: bool) {
        self.name == other.name && self.vis == other.vis && self.attrs == other.attrs
            && self.typ == other.typ
    }
}

impl vstd::std_specs::cmp::PartialEqSpecImpl for NewType {
    open spec fn obeys_eq_spec() -> bool {
        true
    }

    open spec fn eq_spec(&self, other: &NewType) -> bool {
        self.name@ == other.name@ && self.vis == other.vis && same_attributes(
            self.attrs,
            other.attrs,
        ) && type_eqv(self.typ, other.typ)
    }
}

impl PartialEq for Alias {
    fn eq(&self, other: &Alias) -> (r: bool) {
        self.name == other.name && self.vis == other.vis && self.typ == other.typ
    }
}

impl vstd::std_specs::cmp::PartialEqSpecImpl for Alias {
    open spec fn obeys_eq_spec() -> bool {
        true
    }

    open spec fn eq_spec(&self, other: &Alias) -> bool {
        self.name@ == other.name@ && self.vis == other.vis && type_eqv(self.typ, other.typ)
    }
}

fn clone_fields(v: &Vec<Field>) -> (r: Vec<Field>)
    ensures
        fields_equiv(v@, r@),
{
    let mut out: Vec<Field> = Vec::new();
    let mut i: usize = 0;
    while i < v.len()
        invariant
            0 <= i <= v@.len(),
            fields_equiv(v@.subrange(0, i as int), out@),
        decreases v@.len() - i,
    {
        out.push(v[i].clone());
        proof {
            assert(v@.subrange(0, i + 1) =~= v@.subrange(0, i as int).push(v@[i as int]));
            assert(fields_equiv(v@.subrange(0, i + 1), out@));
        }
        i += 1;
    }
    proof {
        assert(v@.subrange(0, v@.len() as int) =~= v@);
    }
    out
}

fn clone_variants(v: &Vec<Variant>) -> (r: Vec<Variant>)
    ensures
        variants_equiv(v@, r@),
{
    let mut out: Vec<Variant> = Vec::new();
    let mut i: usize = 0;
    while i < v.len()
        invariant
            0 <= i <= v@.len(),
            variants_equiv(v@.subrange(0, i as int), out@),
        decreases v@.len() - i,
    {
        out.push(v[i].clone());
        proof {
            assert(v@.subrange(0, i + 1) =~= v@.subrange(0, i as int).push(v@[i as int]));
            assert(variants_equiv(v@.subrange(0, i + 1), out@));
        }
        i += 1;
    }
    proof {
        assert(v@.subrange(0, v@.len() as int) =~= v@);
    }
    out
}

impl Clone for Struct {
    fn clone(&self) -> (r: Struct)
        ensures
            r.name == self.name,
            r.vis == self.vis,
            r.attrs.derive@ == self.attrs.derive@,
            r.attrs.cfg@ == self.attrs.cfg@,
            r.attrs.custom@ == self.attrs.custom@,
            fields_equiv(self.fields@, r.fields@),
    {
        Struct {
            name: self.name.clone(),
            vis: self.vis,
            attrs: self.attrs.clone(),
            fields: clone_fields(&self.fields),
        }
    }
}

impl Clone for Enum {
    fn clone(&self) -> (r: Enum)
        ensures
            r.name == self.name,
            r.vis == self.vis,
            r.attrs.derive@ == self.attrs.derive@,
            r.attrs.cfg@ == self.attrs.cfg@,
            r.attrs.custom@ == self.attrs.custom@,
            variants_equiv(self.variants@, r.variants@),
    {
        Enum {
            name: self.name.clone(),
            vis: self.vis,
            attrs: self.attrs.clone(),
            variants: clone_variants(&self.variants),
        }
    }
}

impl Clone for NewType {
    fn clone(&self) -> (r: NewType)
        ensures
            r.name == self.name,
            r.vis == self.vis,
            r.attrs.derive@ == self.attrs.derive@,
            r.attrs.cfg@ == self.attrs.cfg@,
            r.attrs.custom@ == self.attrs.custom@,
            r.typ == self.typ,
    {
        NewType {
            name: self.name.clone(),
            vis: self.vis,
            attrs: self.attrs.clone(),
            typ: self.typ.clone(),
        }
    }
}

impl Clone for Alias {
    fn clone(&self) -> (r: Alias)
        ensures
            r == *self,
    {
        Alias { name: self.name.clone(), vis: self.vis, typ: self.typ.clone() }
    }
}

/// The fields of all the given records, concatenated in order.
pub open spec fn all_fields(structs: Seq<Struct>) -> Seq<Field>
    decreases structs.len(),
{
    if structs.len() == 0 {
        Seq::empty()
    } else {
        all_fields(structs.drop_last()) + structs.last().fields@
    }
}

impl Struct {
    /// Assemble a record from its parts.
    pub fn new(name: Id, vis: Visibility, attrs: Attributes, fields: Vec<Field>) -> (r: Struct)
        ensures
            r.name == name,
            r.vis == vis,
            r.attrs == attrs,
            r.fields == fields,
    {
        Struct { name, vis, attrs, fields }
    }

    /// Combine the fields of the given records, in order, into one new
    /// record. Fails on the first field name that occurs twice, reporting
    /// that name.
    pub fn merge(new_name: Id, vis: Visibility, attrs: Attributes, structs: &[Struct]) -> (r:
        Result<Struct, Error>)
        ensures
            match r {
                Ok(s) => names_distinct(field_names(all_fields(structs@))) && s.name == new_name
                    && s.vis == vis && s.attrs == attrs && fields_equiv(
                    s.fields@,
                    all_fields(structs@),
                ),
                Err(e) => !names_distinct(field_names(all_fields(structs@))) && (exists|j: int|
                    is_first_dup(field_names(all_fields(structs@)), j) && (e matches
                    Error::DuplicateName(n) && n@ == field_names(all_fields(structs@))[j])),
            },
    {
        let ghost fsall = all_fields(structs@);
        let mut fs: Vec<Field> = Vec::new();
        let mut si: usize = 0;
        while si < structs.len()
            invariant
                0 <= si <= structs@.len(),
                fields_equiv(fs@, all_fields(structs@.subrange(0, si as int))),
            decreases structs@.len() - si,
        {
            let s = slice_index_get(structs, si);
            let mut fi: usize = 0;
            while fi < s.fields.len()
                invariant
                    0 <= fi <= s.fields@.len(),
                    s == structs@[si as int],
                    0 <= si < structs@.len(),
                    fields_equiv(
                        fs@,
                        all_fields(structs@.subrange(0, si as int)) + s.fields@.subrange(
                            0,
                            fi as int,
                        ),
                    ),
                decreases s.fields@.len() - fi,
            {
                fs.push(s.fields[fi].clone());
                proof {
                    let before = all_fields(structs@.subrange(0, si as int)) + s.fields@.subrange(
                        0,
                        fi as int,
                    );
                    let after = all_fields(structs@.subrange(0, si as int)) + s.fields@.subrange(
                        0,
                        fi + 1,
                    );
                    assert(after =~= before.push(s.fields@[fi as int]));
                    assert(fields_equiv(fs@, after));
                }
                fi += 1;
            }
            proof {
                assert(s.fields@.subrange(0, s.fields@.len() as int) =~= s.fields@);
                let sub1 = structs@.subrange(0, si + 1);
                assert(sub1.drop_last() =~= structs@.subrange(0, si as int));
                assert(sub1.last() == structs@[si as int]);
            }
            si += 1;
        }
        let ghost ns = field_names(fsall);
        proof {
            assert(structs@.subrange(0, structs@.len() as int) =~= structs@);
            assert(fields_equiv(fs@, fsall));
            assert(field_names(fs@) =~= ns);
        }
        let mut j: usize = 0;
        while j < fs.len()
            invariant
                0 <= j <= fs@.len(),
                fsall == all_fields(structs@),
                fields_equiv(fs@, fsall),
                ns == field_names(fsall),
                field_names(fs@) == ns,
                forall|i2: int, j2: int| 0 <= i2 < j2 < j ==> ns[i2] != ns[j2],
            decreases fs@.len() - j,
        {
            let mut i: usize = 0;
            while i < j
                invariant
                    0 <= i <= j < fs@.len(),
                    fsall == all_fields(structs@),
                    fields_equiv(fs@, fsall),
                    ns == field_names(fsall),
                    field_names(fs@) == ns,
                    forall|i2: int, j2: int| 0 <= i2 < j2 < j ==> ns[i2] != ns[j2],
                    forall|i2: int| 0 <= i2 < i ==> ns[i2] != ns[j as int],
                decreases j - i,
            {
                if fs[i].name == fs[j].name {
                    proof {
                        assert(ns[i as int] == fs@[i as int].name@);
                        assert(ns[j as int] == fs@[j as int].name@);
                        assert(is_first_dup(ns, j as int));
                        assert(!names_distinct(ns));
                    }
                    return Err(Error::DuplicateName(fs[j].name.clone()));
                }
                proof {
                    assert(ns[i as int] == fs@[i as int].name@);
                    assert(ns[j as int] == fs@[j as int].name@);
                }
                i += 1;
            }
            j += 1;
        }
        Ok(Struct { name: new_name, vis, attrs, fields: fs })
    }
}

impl Render for Struct {
    open spec fn spec_render(&self) -> Seq<char> {
        self.attrs.spec_render() + " "@ + self.vis.spec_render() + " struct "@ + self.name@
            + " { "@ + spec_join(self.fields@.map_values(|f: Field| f.spec_render()), ", "@)
            + " }"@
    }

    fn render(&self) -> (r: String)
        ensures
            r@ == self.spec_render(),
    {
        let mut out = self.attrs.render();
        out.append(" ");
        let vis = self.vis.render();
        out.append(vis.as_str());
        out.append(" struct ");
        out.append(self.name.as_str());
        out.append(" { ");
        let fields = render_delimited(&self.fields, ", ");
        out.append(fields.as_str());
        out.append(" }");
        proof {
            assert(out@ =~= self.spec_render());
        }
        out
    }
}

/// A tagged-union declaration: a named, ordered list of variants.
#[derive(Debug)]
pub struct Enum {
    pub name: Id,
    pub vis: Visibility,
    pub attrs: Attributes,
    pub variants: Vec<Variant>,
}

impl Enum {
    /// Assemble a tagged union from its parts.
    pub fn new(name: Id, vis: Visibility, attrs: Attributes, variants: Vec<Variant>) -> (r: Enum)
        ensures
            r.name == name,
            r.vis == vis,
            r.attrs == attrs,
            r.variants == variants,
    {
        Enum { name, vis, attrs, variants }
    }
}

impl Render for Enum {
    open spec fn spec_render(&self) -> Seq<char> {
        self.attrs.spec_render() + " "@ + self.vis.spec_render() + " enum "@ + self.name@ + " { "@
            + spec_join(self.variants@.map_values(|v: Variant| v.spec_render()), ", "@) + " }"@
    }

    fn render(&self) -> (r: String)
        ensures
            r@ == self.spec_render(),
    {
        let mut out = self.attrs.render();
        out.append(" ");
        let vis = self.vis.render();
        out.append(vis.as_str());
        out.append(" enum ");
        out.append(self.name.as_str());
        out.append(" { ");
        let variants = render_delimited(&self.variants, ", ");
        out.append(variants.as_str());
        out.append(" }");
        proof {
            assert(out@ =~= self.spec_render());
        }
        out
    }
}

/// A single-field wrapper declaration around one inner type.
#[derive(Debug)]
pub struct NewType {
    pub name: Id,
    pub vis: Visibility,
    pub attrs: Attributes,
    pub typ: Type,
}

impl NewType {
    /// Assemble a wrapper declaration from its parts.
    pub fn new(name: Id, vis: Visibility, attrs: Attributes, typ: Type) -> (r: NewType)
        ensures
            r.name == name,
            r.vis == vis,
            r.attrs == attrs,
            r.typ == typ,
    {
        NewType { name, vis, attrs, typ }
    }
}

impl Render for NewType {
    open spec fn spec_render(&self) -> Seq<char> {
        self.attrs.spec_render() + " "@ + self.vis.spec_render() + " struct "@ + self.name@ + "("@
            + self.typ.spec_render() + ");"@
    }

    fn render(&self) -> (r: String)
        ensures
            r@ == self.spec_render(),
    {
        let mut out = self.attrs.render();
        out.append(" ");
        let vis = self.vis.render();
        out.append(vis.as_str());
        out.append(" struct ");
        out.append(self.name.as_str());
        out.append("(");
        let t = self.typ.render();
        out.append(t.as_str());
        out.append(");");
        proof {
            assert(out@ =~= self.spec_render());
        }
        out
    }
}

/// A type-alias declaration for one inner type.
#[derive(Debug)]
pub struct Alias {
    pub name: Id,
    pub vis: Visibility,
    pub typ: Type,
}

impl Alias {
    /// Assemble an alias declaration from its parts.
    pub fn new(name: Id, vis: Visibility, typ: Type) -> (r: Alias)
        ensures
            r.name == name,
            r.vis == vis,
            r.typ == typ,
    {
        Alias { name, vis, typ }
    }
}

impl Render for Alias {
    open spec fn spec_render(&self) -> Seq<char> {
        self.vis.spec_render() + " type "@ + self.name@ + " = "@ + self.typ.spec_render() + ";"@
    }

    fn render(&self) -> (r: String)
        ensures
            r@ == self.spec_render(),
    {
        let mut out = self.vis.render();
        out.append(" type ");
        out.append(self.name.as_str());
        out.append(" = ");
        let t = self.typ.render();
        out.append(t.as_str());
        out.append(";");
        proof {
            assert(out@ =~= self.spec_render());
        }
        out
    }
}

} // verus!
