//! Package identifiers of lockfile entries: a scope-and-name pair, a
//! descriptor carrying a version range, and a locator carrying a resolved
//! reference.
//!
//! The textual grammar: an identifier is `name` or `@scope/name`, where the
//! scope is non-empty and free of `/`, and the name is non-empty and free of
//! both `@` and `/`. A descriptor or locator is an identifier followed by
//! `@` and a non-empty range; the range may contain any characters, and the
//! separator is the first `@` after the name begins.

use vstd::prelude::*;

verus! {

/// A failure to parse one of the identifier forms, carrying the offending
/// text.
#[derive(Debug)]
pub enum Error {
    Ident(String),
    Descriptor(String),
    Locator(String),
}

/// A package scope and name.
#[derive(Debug, Clone)]
pub struct Ident {
    pub scope: Option<String>,
    pub name: String,
}

/// An identifier with a semver range.
#[derive(Debug, Clone)]
pub struct Descriptor {
    pub ident: Ident,
    pub range: String,
}

/// An identifier with a resolved version. Similar to a descriptor, except
/// that a descriptor can reference multiple packages whereas a locator
/// references exactly one.
#[derive(Debug, Clone)]
pub struct Locator {
    pub ident: Ident,
    pub reference: String,
}

/// A well-formed scope: non-empty, without `/`.
pub open spec fn valid_scope(s: Seq<char>) -> bool {
    s.len() > 0 && forall|i: int| 0 <= i < s.len() ==> s[i] != '/'
}

/// A well-formed package name: non-empty, without `@` or `/`.
pub open spec fn valid_name(s: Seq<char>) -> bool {
    s.len() > 0 && forall|i: int| 0 <= i < s.len() ==> s[i] != '@' && s[i] != '/'
}

/// The text of an identifier: `name`, or `@scope/name`.
pub open spec fn ident_text(scope: Option<Seq<char>>, name: Seq<char>) -> Seq<char> {
    match scope {
        Option::Some(sc) => seq!['@'] + sc + seq!['/'] + name,
        Option::None => name,
    }
}

/// Whether `s` is exactly the identifier with the given well-formed parts.
pub open spec fn is_ident_text(s: Seq<char>, scope: Option<Seq<char>>, name: Seq<char>) -> bool {
    &&& match scope {
        Option::Some(sc) => valid_scope(sc),
        Option::None => true,
    }
    &&& valid_name(name)
    &&& s == ident_text(scope, name)
}

/// The view of an optional scope.
pub open spec fn scope_view(scope: Option<String>) -> Option<Seq<char>> {
    match scope {
        Option::Some(sc) => Option::Some(sc@),
        Option::None => Option::None,
    }
}

/// Whether `s` is exactly an identifier followed by `@` and a non-empty
/// range.
pub open spec fn is_descriptor_text(
    s: Seq<char>,
    scope: Option<Seq<char>>,
    name: Seq<char>,
    range: Seq<char>,
) -> bool {
    &&& match scope {
        Option::Some(sc) => valid_scope(sc),
        Option::None => true,
    }
    &&& valid_name(name)
    &&& range.len() > 0
    &&& s == ident_text(scope, name) + seq!['@'] + range
}

/// The identifier grammar is unambiguous: one text decomposes into at most
/// one scope/name pair. With `try_from` and `to_string`, printing an
/// identifier and parsing the text back recovers exactly its parts.
pub proof fn lemma_ident_decomposition_unique(
    s: Seq<char>,
    sc1: Option<Seq<char>>,
    nm1: Seq<char>,
    sc2: Option<Seq<char>>,
    nm2: Seq<char>,
)
    requires
        is_ident_text(s, sc1, nm1),
        is_ident_text(s, sc2, nm2),
    ensures
        sc1 == sc2,
        nm1 == nm2,
{
    match (sc1, sc2) {
        (Option::None, Option::None) => {
        },
        (Option::Some(a), Option::None) => {
            assert(s[0] == '@');
            assert(nm2[0] == '@');
        },
        (Option::None, Option::Some(b)) => {
            assert(s[0] == '@');
            assert(nm1[0] == '@');
        },
        (Option::Some(a), Option::Some(b)) => {
            if a.len() < b.len() {
                assert(s[1 + a.len() as int] == '/');
                assert(b[a.len() as int] == s[1 + a.len() as int]);
            }
            if b.len() < a.len() {
                assert(s[1 + b.len() as int] == '/');
                assert(a[b.len() as int] == s[1 + b.len() as int]);
            }
            assert(a.len() == b.len());
            assert forall|i: int| 0 <= i < a.len() implies a[i] == b[i] by {
                assert(a[i] == s[1 + i]);
                assert(b[i] == s[1 + i]);
            }
            assert(a =~= b);
            assert(s.len() == 2 + a.len() + nm1.len());
            assert(s.len() == 2 + b.len() + nm2.len());
            assert(nm1.len() == nm2.len());
            assert forall|i: int| 0 <= i < nm1.len() implies nm1[i] == nm2[i] by {
                assert(ident_text(sc1, nm1)[2 + a.len() + i] == nm1[i]);
                assert(ident_text(sc2, nm2)[2 + b.len() + i] == nm2[i]);
                assert(s[2 + a.len() + i] == nm1[i]);
                assert(s[2 + b.len() + i] == nm2[i]);
            }
            assert(nm1 =~= nm2);
        },
    }
}

/// The descriptor grammar is unambiguous as well: one text decomposes into
/// at most one scope, name and range, so printing and parsing a descriptor
/// or a locator recovers exactly its parts.
pub proof fn lemma_descriptor_decomposition_unique(
    s: Seq<char>,
    sc1: Option<Seq<char>>,
    nm1: Seq<char>,
    rg1: Seq<char>,
    sc2: Option<Seq<char>>,
    nm2: Seq<char>,
    rg2: Seq<char>,
)
    requires
        is_descriptor_text(s, sc1, nm1, rg1),
        is_descriptor_text(s, sc2, nm2, rg2),
    ensures
        sc1 == sc2,
        nm1 == nm2,
        rg1 == rg2,
{
    match (sc1, sc2) {
        (Option::None, Option::None) => {
            // the separator is the first `@`: the names have equal length
            if nm1.len() < nm2.len() {
                assert(s[nm1.len() as int] == '@');
                assert(nm2[nm1.len() as int] == s[nm1.len() as int]);
            }
            if nm2.len() < nm1.len() {
                assert(s[nm2.len() as int] == '@');
                assert(nm1[nm2.len() as int] == s[nm2.len() as int]);
            }
            let it1 = ident_text(sc1, nm1);
            let it2 = ident_text(sc2, nm2);
            assert(nm1.len() == nm2.len());
            assert forall|i: int| 0 <= i < nm1.len() implies nm1[i] == nm2[i] by {
                assert(s[i] == it1[i]);
                assert(s[i] == it2[i]);
            }
            assert(nm1 =~= nm2);
            assert(s.len() == nm1.len() + 1 + rg1.len());
            assert(s.len() == nm2.len() + 1 + rg2.len());
            assert(rg1.len() == rg2.len());
            assert forall|i: int| 0 <= i < rg1.len() implies rg1[i] == rg2[i] by {
                assert((ident_text(sc1, nm1) + seq!['@'] + rg1)[nm1.len() + 1 + i] == rg1[i]);
                assert((ident_text(sc2, nm2) + seq!['@'] + rg2)[nm2.len() + 1 + i] == rg2[i]);
                assert(s[nm1.len() + 1 + i] == rg1[i]);
                assert(s[nm2.len() + 1 + i] == rg2[i]);
            }
            assert(rg1 =~= rg2);
        },
        (Option::Some(a), Option::None) => {
            assert(s[0] == '@');
            assert(nm2[0] == '@');
        },
        (Option::None, Option::Some(b)) => {
            assert(s[0] == '@');
            assert(nm1[0] == '@');
        },
        (Option::Some(a), Option::Some(b)) => {
            let it1 = ident_text(sc1, nm1);
            let it2 = ident_text(sc2, nm2);
            // the scope ends at the first `/`
            if a.len() < b.len() {
                assert(s[1 + a.len() as int] == it1[1 + a.len() as int]);
                assert(it1[1 + a.len() as int] == '/');
                assert(s[1 + a.len() as int] == it2[1 + a.len() as int]);
                assert(it2[1 + a.len() as int] == b[a.len() as int]);
            }
            if b.len() < a.len() {
                assert(s[1 + b.len() as int] == it2[1 + b.len() as int]);
                assert(it2[1 + b.len() as int] == '/');
                assert(s[1 + b.len() as int] == it1[1 + b.len() as int]);
                assert(it1[1 + b.len() as int] == a[b.len() as int]);
            }
            assert(a.len() == b.len());
            assert forall|i: int| 0 <= i < a.len() implies a[i] == b[i] by {
                assert(s[1 + i] == it1[1 + i]);
                assert(it1[1 + i] == a[i]);
                assert(s[1 + i] == it2[1 + i]);
                assert(it2[1 + i] == b[i]);
            }
            assert(a =~= b);
            // the separator is the first `@` after the name begins
            if nm1.len() < nm2.len() {
                assert(s[2 + a.len() + nm1.len() as int] == '@');
                assert(s[2 + b.len() + nm1.len() as int] == it2[2 + b.len() + nm1.len() as int]);
                assert(it2[2 + b.len() + nm1.len() as int] == nm2[nm1.len() as int]);
            }
            if nm2.len() < nm1.len() {
                assert(s[2 + b.len() + nm2.len() as int] == '@');
                assert(s[2 + a.len() + nm2.len() as int] == it1[2 + a.len() + nm2.len() as int]);
                assert(it1[2 + a.len() + nm2.len() as int] == nm1[nm2.len() as int]);
            }
            assert(it1.len() == 2 + a.len() + nm1.len());
            assert(it2.len() == 2 + b.len() + nm2.len());
            assert(nm1.len() == nm2.len());
            assert forall|i: int| 0 <= i < nm1.len() implies nm1[i] == nm2[i] by {
                assert(s[2 + a.len() + i] == it1[2 + a.len() + i]);
                assert(it1[2 + a.len() + i] == nm1[i]);
                assert(s[2 + b.len() + i] == it2[2 + b.len() + i]);
                assert(it2[2 + b.len() + i] == nm2[i]);
            }
            assert(nm1 =~= nm2);
            assert(s.len() == it1.len() + 1 + rg1.len());
            assert(s.len() == it2.len() + 1 + rg2.len());
            assert(rg1.len() == rg2.len());
            assert forall|i: int| 0 <= i < rg1.len() implies rg1[i] == rg2[i] by {
                assert((it1 + seq!['@'] + rg1)[it1.len() + 1 + i] == rg1[i]);
                assert((it2 + seq!['@'] + rg2)[it2.len() + 1 + i] == rg2[i]);
                assert(s[it1.len() + 1 + i] == rg1[i]);
                assert(s[it2.len() + 1 + i] == rg2[i]);
            }
            assert(rg1 =~= rg2);
        },
    }
}

/// The characters of a string, in order.
pub(crate) fn to_chars(s: &str) -> (r: Vec<char>)
    ensures
        r@ == s@,
{
    let n = s.unicode_len();
    let mut r: Vec<char> = Vec::new();
    let mut i: usize = 0;
    while i < n
        invariant
            n == s@.len(),
            0 <= i <= n,
            r@ == s@.take(i as int),
        decreases n - i,
    {
        let c = s.get_char(i);
        r.push(c);
        proof {
            assert(r@ =~= s@.take(i as int + 1));
        }
        i = i + 1;
    }
    proof {
        assert(s@.take(n as int) =~= s@);
    }
    r
}

/// The least index at or after `from` holding `c`, or the length if none.
fn find_char(v: &Vec<char>, from: usize, c: char) -> (r: usize)
    requires
        from <= v@.len(),
    ensures
        from <= r <= v@.len(),
        forall|i: int| from <= i < r ==> v@[i] != c,
        r < v@.len() ==> v@[r as int] == c,
{
    let n = v.len();
    let mut i: usize = from;
    while i < n
        invariant
            from <= i <= n == v@.len(),
            forall|k: int| from <= k < i ==> v@[k] != c,
        decreases n - i,
    {
        if v[i] == c {
            return i;
        }
        i = i + 1;
    }
    n
}

/// Whether the characters in `[from, to)` avoid both `a` and `b`.
fn range_avoids(v: &Vec<char>, from: usize, to: usize, a: char, b: char) -> (r: bool)
    requires
        from <= to <= v@.len(),
    ensures
        r == forall|i: int| from <= i < to ==> v@[i] != a && v@[i] != b,
{
    let mut i: usize = from;
    while i < to
        invariant
            from <= i <= to <= v@.len(),
            forall|k: int| from <= k < i ==> v@[k] != a && v@[k] != b,
        decreases to - i,
    {
        if v[i] == a || v[i] == b {
            return false;
        }
        i = i + 1;
    }
    true
}

/// The scope/name decomposition of `s`, if `s` is an identifier: the scope
/// runs from after the leading `@` to the first `/`, and the name is the
/// rest.
struct IdentParts {
    scope: Option<String>,
    name: String,
}

fn parse_ident_chars(s: &str, v: &Vec<char>) -> (r: Option<IdentParts>)
    requires
        v@ == s@,
    ensures
        r matches Some(p) ==> is_ident_text(v@, scope_view(p.scope), p.name@),
        r is None ==> forall|sc: Option<Seq<char>>, nm: Seq<char>| !is_ident_text(v@, sc, nm),
{
    let n = v.len();
    if n == 0 {
        proof {
            assert forall|sc: Option<Seq<char>>, nm: Seq<char>| !is_ident_text(v@, sc, nm) by {
                if is_ident_text(v@, sc, nm) {
                    assert(ident_text(sc, nm).len() > 0);
                }
            }
        }
        return None;
    }
    if v[0] == '@' {
        let slash = find_char(v, 1, '/');
        if slash <= 1 || slash >= n {
            // No scope terminator, or an empty scope: not an identifier,
            // since a name cannot begin with `@`.
            proof {
                assert forall|sc: Option<Seq<char>>, nm: Seq<char>| !is_ident_text(v@, sc, nm) by {
                    if is_ident_text(v@, sc, nm) {
                        match sc {
                            Option::Some(scope) => {
                                let text = ident_text(sc, nm);
                                assert(v@[1 + scope.len() as int] == '/');
                                if slash >= n {
                                    assert(false);
                                } else {
                                    assert(v@[1] == '/');
                                    assert(scope[0] != '/');
                                    assert(v@[1] == scope[0]);
                                }
                            },
                            Option::None => {
                                assert(nm[0] == '@');
                            },
                        }
                    }
                }
            }
            return None;
        }
        // The name may not contain `@` or `/`, and must be non-empty.
        if slash + 1 >= n || !range_avoids(v, slash + 1, n, '@', '/') {
            proof {
                assert forall|sc: Option<Seq<char>>, nm: Seq<char>| !is_ident_text(v@, sc, nm) by {
                    if is_ident_text(v@, sc, nm) {
                        match sc {
                            Option::Some(scope) => {
                                assert(v@[1 + scope.len() as int] == '/');
                                assert(1 + scope.len() >= slash) by {
                                    if 1 + scope.len() < slash {
                                        assert(v@[1 + scope.len() as int] != '/');
                                    }
                                }
                                assert(1 + scope.len() <= slash) by {
                                    if 1 + scope.len() > slash {
                                        assert(scope[slash - 1] == v@[slash as int]);
                                    }
                                }
                                assert(nm.len() == n - slash - 1);
                                assert(nm.len() > 0);
                                let bad = choose|i: int|
                                    slash + 1 <= i < n && (v@[i] == '@' || v@[i] == '/');
                                assert(nm[bad - slash - 1] == v@[bad]);
                            },
                            Option::None => {
                                assert(nm[0] == '@');
                            },
                        }
                    }
                }
            }
            return None;
        }
        let scope = s.substring_char(1, slash).to_owned();
        let name = s.substring_char(slash + 1, n).to_owned();
        let p = IdentParts { scope: Some(scope), name };
        proof {
            assert(v@ =~= ident_text(scope_view(p.scope), p.name@));
        }
        Some(p)
    } else {
        if !range_avoids(v, 0, n, '@', '/') {
            proof {
                assert forall|sc: Option<Seq<char>>, nm: Seq<char>| !is_ident_text(v@, sc, nm) by {
                    if is_ident_text(v@, sc, nm) {
                        match sc {
                            Option::Some(scope) => {
                                assert(v@[0] == '@');
                            },
                            Option::None => {
                                let bad = choose|i: int|
                                    0 <= i < n && (v@[i] == '@' || v@[i] == '/');
                                assert(nm[bad] == v@[bad]);
                            },
                        }
                    }
                }
            }
            return None;
        }
        let name = s.to_owned();
        let p = IdentParts { scope: None, name };
        proof {
            assert(v@ =~= ident_text(scope_view(p.scope), p.name@));
        }
        Some(p)
    }
}

impl Ident {
    /// Parse `name` or `@scope/name`. Succeeds exactly when the text is a
    /// well-formed identifier, and then returns its unique decomposition.
    pub fn try_from(value: &str) -> (r: Result<Ident, Error>)
        ensures
            r matches Ok(id) ==> is_ident_text(value@, scope_view(id.scope), id.name@),
            r is Err ==> forall|sc: Option<Seq<char>>, nm: Seq<char>| !is_ident_text(
                value@,
                sc,
                nm,
            ),
            r matches Err(e) ==> e matches Error::Ident(s) && s@ == value@,
    {
        let v = to_chars(value);
        match parse_ident_chars(value, &v) {
            Some(p) => Ok(Ident { scope: p.scope, name: p.name }),
            None => Err(Error::Ident(value.to_owned())),
        }
    }

    /// A copy of this identifier that owns its text.
    pub fn into_owned(&self) -> (r: Ident)
        ensures
            scope_view(r.scope) == scope_view(self.scope),
            r.name@ == self.name@,
    {
        let scope = match &self.scope {
            Some(sc) => Some(sc.clone()),
            None => None,
        };
        Ident { scope, name: self.name.clone() }
    }

    /// The textual form: `name`, or `@scope/name`.
    pub fn to_string(&self) -> (r: String)
        ensures
            r@ == ident_text(scope_view(self.scope), self.name@),
    {
        let mut s = String::new();
        match &self.scope {
            Some(sc) => {
                s.append("@");
                s.append(sc.as_str());
                s.append("/");
                s.append(self.name.as_str());
                proof {
                    reveal_strlit("@");
                    reveal_strlit("/");
                    assert(s@ =~= ident_text(scope_view(self.scope), self.name@));
                }
            },
            None => {
                s.append(self.name.as_str());
                proof {
                    assert(s@ =~= ident_text(scope_view(self.scope), self.name@));
                }
            },
        }
        s
    }
}

impl PartialEq for Ident {
    /// Structural equality: same scope and same name.
    fn eq(&self, other: &Self) -> (r: bool) {
        let scope_eq = match (&self.scope, &other.scope) {
            (Some(a), Some(b)) => *a == *b,
            (None, None) => true,
            _ => false,
        };
        scope_eq && self.name == other.name
    }
}

impl vstd::std_specs::cmp::PartialEqSpecImpl for Ident {
    open spec fn obeys_eq_spec() -> bool {
        true
    }

    open spec fn eq_spec(&self, other: &Self) -> bool {
        scope_view(self.scope) == scope_view(other.scope) && self.name@ == other.name@
    }
}

/// The least index at or after `from` holding `c`, or the length if none:
/// the boundary used by protocol and separator lookups.
pub open spec fn first_from(s: Seq<char>, from: int, c: char) -> int
    decreases s.len() - from,
{
    if from < 0 || from >= s.len() {
        s.len() as int
    } else if s[from] == c {
        from
    } else {
        first_from(s, from + 1, c)
    }
}

proof fn lemma_first_from(s: Seq<char>, from: int, c: char, r: int)
    requires
        0 <= from <= r <= s.len(),
        forall|i: int| from <= i < r ==> s[i] != c,
        r < s.len() ==> s[r] == c,
    ensures
        first_from(s, from, c) == if r < s.len() {
            r
        } else {
            s.len() as int
        },
    decreases r - from,
{
    if from < r {
        lemma_first_from(s, from + 1, c, r);
    }
}

/// Whether the word `patch:` begins at `i`.
pub open spec fn patch_prefix_at(s: Seq<char>, i: int) -> bool {
    &&& 0 <= i
    &&& i + 6 <= s.len()
    &&& s[i] == 'p'
    &&& s[i + 1] == 'a'
    &&& s[i + 2] == 't'
    &&& s[i + 3] == 'c'
    &&& s[i + 4] == 'h'
    &&& s[i + 5] == ':'
}

/// Whether a `#` at `p` can end the patched-package part: at least one
/// character follows it, and that character is not `:`.
pub open spec fn patch_hash_at(s: Seq<char>, p: int) -> bool {
    &&& 0 <= p
    &&& p + 1 < s.len()
    &&& s[p] == '#'
    &&& s[p + 1] != ':'
}

/// Whether `s` holds a patch reference beginning at `i` whose package part
/// ends at the `#` at `p`: the part between is non-empty.
pub open spec fn patch_match_at(s: Seq<char>, i: int, p: int) -> bool {
    patch_prefix_at(s, i) && i + 7 <= p && patch_hash_at(s, p)
}

/// Whether some patch reference begins at `i`.
pub open spec fn patch_starts_at(s: Seq<char>, i: int) -> bool {
    exists|p: int| patch_match_at(s, i, p)
}

/// Whether `s` holds a patch reference at all.
pub open spec fn has_patch_reference(s: Seq<char>) -> bool {
    exists|i: int| patch_starts_at(s, i)
}

/// The decomposition a patch reference is read by: the earliest start, and
/// for it the latest usable `#`, so the patched-package part is as long as
/// possible.
pub open spec fn patch_groups_at(s: Seq<char>, i: int, p: int) -> bool {
    &&& patch_match_at(s, i, p)
    &&& forall|i2: int| 0 <= i2 < i ==> !patch_starts_at(s, i2)
    &&& forall|p2: int| p < p2 ==> !patch_match_at(s, i, p2)
}

/// Where the patch file's path starts, after the `#`: a leading `./` is
/// dropped when more than a protocol separator follows it.
pub open spec fn patch_file_start(s: Seq<char>, p: int) -> int {
    if p + 3 < s.len() && s[p + 1] == '.' && s[p + 2] == '/' && s[p + 3] != ':' {
        p + 3
    } else {
        p + 1
    }
}

/// The patch file named by the reference whose `#` sits at `p`: from after
/// the hash to the first `:`, if any.
pub open spec fn patch_file_of(s: Seq<char>, p: int) -> Seq<char> {
    s.subrange(patch_file_start(s, p), first_from(s, patch_file_start(s, p), ':'))
}

/// The reference with every `npm%3A` decoded back to `npm:`, leftmost
/// first.
pub open spec fn npm_unescaped(s: Seq<char>) -> Seq<char>
    decreases s.len(),
{
    if s.len() >= 6 && s[0] == 'n' && s[1] == 'p' && s[2] == 'm' && s[3] == '%' && s[4] == '3'
        && s[5] == 'A' {
        seq!['n', 'p', 'm', ':'] + npm_unescaped(s.subrange(6, s.len() as int))
    } else if s.len() == 0 {
        s
    } else {
        seq![s[0]] + npm_unescaped(s.subrange(1, s.len() as int))
    }
}

/// The reference, prefixed with `npm:` unless it already starts so.
pub open spec fn with_npm(s: Seq<char>) -> Seq<char> {
    if s.len() >= 4 && s[0] == 'n' && s[1] == 'p' && s[2] == 'm' && s[3] == ':' {
        s
    } else {
        seq!['n', 'p', 'm', ':'] + s
    }
}

/// The reference a patched locator carries: the patched package's own
/// range, decoded and normalized to the `npm` protocol.
pub open spec fn patched_reference(rg: Seq<char>) -> Seq<char> {
    with_npm(npm_unescaped(rg))
}

/// The latest usable `#`, or the length if none.
fn last_patch_hash(v: &Vec<char>) -> (r: usize)
    ensures
        r <= v@.len(),
        r < v@.len() ==> patch_hash_at(v@, r as int),
        forall|p2: int| r < p2 ==> !patch_hash_at(v@, p2),
        r == v@.len() ==> forall|p2: int| !patch_hash_at(v@, p2),
{
    let n = v.len();
    let mut k: usize = n;
    while k > 0
        invariant
            0 <= k <= n == v@.len(),
            forall|p2: int| k <= p2 ==> !patch_hash_at(v@, p2),
        decreases k,
    {
        k = k - 1;
        if v[k] == '#' && k + 1 < n && v[k + 1] != ':' {
            return k;
        }
        proof {
            assert(!patch_hash_at(v@, k as int));
        }
    }
    n
}

/// The earliest `patch:` whose package part can reach the `#` at `bound`,
/// or the length if none.
fn first_patch_start(v: &Vec<char>, bound: usize) -> (r: usize)
    requires
        bound <= v@.len(),
    ensures
        r <= v@.len(),
        r < v@.len() ==> patch_prefix_at(v@, r as int) && r + 7 <= bound && forall|i2: int|
            0 <= i2 < r ==> !patch_prefix_at(v@, i2),
        r == v@.len() ==> forall|i2: int|
            0 <= i2 && i2 + 7 <= bound ==> !patch_prefix_at(v@, i2),
{
    let n = v.len();
    if bound < 7 {
        return n;
    }
    let stop = bound - 7;
    let mut i: usize = 0;
    while i <= stop
        invariant
            stop == bound - 7 <= v@.len() - 7,
            0 <= i <= stop + 1,
            forall|i2: int| 0 <= i2 < i ==> !patch_prefix_at(v@, i2),
        decreases stop + 1 - i,
    {
        if v[i] == 'p' && v[i + 1] == 'a' && v[i + 2] == 't' && v[i + 3] == 'c' && v[i + 4] == 'h'
            && v[i + 5] == ':' {
            return i;
        }
        proof {
            assert(!patch_prefix_at(v@, i as int));
        }
        i = i + 1;
    }
    n
}

/// The decomposition of a patch reference, if `s` holds one: the bounds of
/// the patched-package part, and of the patch file path.
struct PatchParts {
    pkg_from: usize,
    pkg_to: usize,
    file_from: usize,
    file_to: usize,
}

fn find_patch_parts(s: &str, v: &Vec<char>) -> (r: Option<PatchParts>)
    requires
        v@ == s@,
    ensures
        r is Some <==> has_patch_reference(v@),
        r matches Some(pp) ==> {
            &&& patch_groups_at(v@, pp.pkg_from as int - 6, pp.pkg_to as int)
            &&& 6 <= pp.pkg_from <= pp.pkg_to < v@.len()
            &&& pp.file_from == patch_file_start(v@, pp.pkg_to as int)
            &&& pp.file_to == first_from(v@, pp.file_from as int, ':')
            &&& pp.file_from as int <= pp.file_to <= v@.len()
        },
{
    let n = v.len();
    let best = last_patch_hash(v);
    if best >= n {
        proof {
            assert forall|i: int| !patch_starts_at(v@, i) by {
                if patch_starts_at(v@, i) {
                    let p = choose|p: int| patch_match_at(v@, i, p);
                    assert(!patch_hash_at(v@, p));
                }
            }
        }
        return None;
    }
    let start = first_patch_start(v, best);
    if start >= n {
        proof {
            assert forall|i: int| !patch_starts_at(v@, i) by {
                if patch_starts_at(v@, i) {
                    let p = choose|p: int| patch_match_at(v@, i, p);
                    assert(p <= best) by {
                        if p > best {
                            assert(!patch_hash_at(v@, p));
                        }
                    }
                    assert(i + 7 <= best);
                    assert(!patch_prefix_at(v@, i));
                }
            }
        }
        return None;
    }
    let q = if n - best > 3 && v[best + 1] == '.' && v[best + 2] == '/' && v[best + 3] != ':' {
        best + 3
    } else {
        best + 1
    };
    let e = find_char(v, q, ':');
    proof {
        lemma_first_from(v@, q as int, ':', e as int);
        assert(patch_match_at(v@, start as int, best as int));
        assert forall|i2: int| 0 <= i2 < start implies !patch_starts_at(v@, i2) by {
            if patch_starts_at(v@, i2) {
                let p = choose|p: int| patch_match_at(v@, i2, p);
                assert(p <= best) by {
                    if p > best {
                        assert(!patch_hash_at(v@, p));
                    }
                }
                assert(!patch_prefix_at(v@, i2));
            }
        }
        assert forall|p2: int| best < p2 implies !patch_match_at(v@, start as int, p2) by {
            if patch_match_at(v@, start as int, p2) {
                assert(!patch_hash_at(v@, p2));
            }
        }
    }
    proof {
        assert(patch_starts_at(v@, start as int));
        assert(has_patch_reference(v@));
    }
    Some(PatchParts { pkg_from: start + 6, pkg_to: best, file_from: q, file_to: e })
}

/// The reference with every `npm%3A` decoded back to `npm:`.
fn npm_unescape(s: &str, v: &Vec<char>) -> (r: String)
    requires
        v@ == s@,
    ensures
        r@ == npm_unescaped(v@),
{
    let n = v.len();
    let mut out = String::new();
    proof {
        assert(v@.subrange(0, n as int) =~= v@);
        assert(out@ + npm_unescaped(v@) =~= npm_unescaped(v@));
    }
    let mut i: usize = 0;
    while i < n
        invariant
            n == v@.len() == s@.len(),
            v@ == s@,
            0 <= i <= n,
            npm_unescaped(v@) == out@ + npm_unescaped(v@.subrange(i as int, n as int)),
        decreases n - i,
    {
        let ghost rest = v@.subrange(i as int, n as int);
        if n - i >= 6 && v[i] == 'n' && v[i + 1] == 'p' && v[i + 2] == 'm' && v[i + 3] == '%' && v[i
            + 4] == '3' && v[i + 5] == 'A' {
            out.append("npm:");
            proof {
                reveal_strlit("npm:");
                assert(rest.len() >= 6 && rest[0] == 'n' && rest[1] == 'p' && rest[2] == 'm'
                    && rest[3] == '%' && rest[4] == '3' && rest[5] == 'A');
                assert(rest.subrange(6, rest.len() as int) =~= v@.subrange(i + 6, n as int));
                assert(npm_unescaped(rest) == seq!['n', 'p', 'm', ':'] + npm_unescaped(
                    v@.subrange(i + 6, n as int),
                ));
                assert("npm:"@ =~= seq!['n', 'p', 'm', ':']);
            }
            i = i + 6;
        } else {
            out.append(s.substring_char(i, i + 1));
            proof {
                assert(rest[0] == v@[i as int]);
                assert(rest.len() >= 6 ==> !(rest[0] == 'n' && rest[1] == 'p' && rest[2] == 'm'
                    && rest[3] == '%' && rest[4] == '3' && rest[5] == 'A')) by {
                    if rest.len() >= 6 {
                        assert(rest[1] == v@[i + 1] && rest[2] == v@[i + 2] && rest[3] == v@[i + 3]
                            && rest[4] == v@[i + 4] && rest[5] == v@[i + 5]);
                    }
                }
                assert(rest.subrange(1, rest.len() as int) =~= v@.subrange(i + 1, n as int));
                assert(npm_unescaped(rest) == seq![v@[i as int]] + npm_unescaped(
                    v@.subrange(i + 1, n as int),
                ));
                assert(s@.subrange(i as int, i as int + 1) =~= seq![v@[i as int]]);
            }
            i = i + 1;
        }
    }
    proof {
        assert(npm_unescaped(v@.subrange(n as int, n as int)) =~= Seq::<char>::empty());
        assert(out@ =~= npm_unescaped(v@));
    }
    out
}

/// A locator's reference decoded and normalized to the `npm` protocol.
fn normalize_patched(reference: &String) -> (r: String)
    ensures
        r@ == patched_reference(reference@),
{
    let v = to_chars(reference.as_str());
    let unescaped = npm_unescape(reference.as_str(), &v);
    let u = to_chars(unescaped.as_str());
    let already = u.len() >= 4 && {
        u[0] == 'n' && u[1] == 'p' && u[2] == 'm' && u[3] == ':'
    };
    if already {
        unescaped
    } else {
        let mut out = String::new();
        out.append("npm:");
        out.append(unescaped.as_str());
        proof {
            reveal_strlit("npm:");
            assert(out@ =~= seq!['n', 'p', 'm', ':'] + npm_unescaped(reference@));
        }
        out
    }
}

struct DescParts {
    scope: Option<String>,
    name: String,
    range: String,
}

fn parse_descriptor_chars(s: &str, v: &Vec<char>) -> (r: Option<DescParts>)
    requires
        v@ == s@,
    ensures
        r matches Some(p) ==> is_descriptor_text(v@, scope_view(p.scope), p.name@, p.range@),
        r is None ==> forall|sc: Option<Seq<char>>, nm: Seq<char>, rg: Seq<char>|
            !is_descriptor_text(v@, sc, nm, rg),
{
    let n = v.len();
    if n == 0 {
        proof {
            assert forall|sc: Option<Seq<char>>, nm: Seq<char>, rg: Seq<char>|
                !is_descriptor_text(v@, sc, nm, rg) by {
                if is_descriptor_text(v@, sc, nm, rg) {
                    assert(v@.len() > 0);
                }
            }
        }
        return None;
    }
    if v[0] == '@' {
        let slash = find_char(v, 1, '/');
        let bad = slash <= 1 || slash >= n;
        let at = if bad {
            n
        } else {
            find_char(v, slash + 1, '@')
        };
        let ok = !bad && at > slash + 1 && at < n && range_avoids(v, slash + 1, at, '/', '/')
            && at + 1 < n;
        if !ok {
            proof {
                assert forall|sc: Option<Seq<char>>, nm: Seq<char>, rg: Seq<char>|
                    !is_descriptor_text(v@, sc, nm, rg) by {
                    if is_descriptor_text(v@, sc, nm, rg) {
                        match sc {
                            Option::Some(scope) => {
                                let sl = 1 + scope.len() as int;
                                assert(v@[sl] == '/');
                                // the scope ends exactly at the first slash
                                assert(sl >= slash) by {
                                    if sl < slash {
                                        assert(v@[sl] != '/');
                                    }
                                }
                                assert(sl <= slash) by {
                                    if sl > slash && slash < n {
                                        assert(scope[slash - 1] == v@[slash as int]);
                                    }
                                }
                                assert(slash == sl);
                                assert(slash < n);
                                assert(slash > 1) by {
                                    assert(scope.len() > 0);
                                }
                                // the separator is the first `@` after the name
                                let sep = sl + 1 + nm.len();
                                assert(v@[sep] == '@');
                                assert(sep >= at) by {
                                    if sep < at {
                                        assert(v@[sep] != '@');
                                    }
                                }
                                assert(sep <= at) by {
                                    if sep > at && at < n {
                                        assert(nm[at - slash - 1] == v@[at as int]);
                                    }
                                }
                                assert(at == sep);
                                assert(at > slash + 1) by {
                                    assert(nm.len() > 0);
                                }
                                assert(at + 1 < n) by {
                                    assert(rg.len() > 0);
                                }
                                let badc = choose|i: int|
                                    slash + 1 <= i < at && (v@[i] == '/' || v@[i] == '/');
                                assert(nm[badc - slash - 1] == v@[badc]);
                            },
                            Option::None => {
                                assert(nm[0] == '@');
                            },
                        }
                    }
                }
            }
            return None;
        }
        let scope = s.substring_char(1, slash).to_owned();
        let name = s.substring_char(slash + 1, at).to_owned();
        let range = s.substring_char(at + 1, n).to_owned();
        let p = DescParts { scope: Some(scope), name, range };
        proof {
            assert(v@ =~= ident_text(scope_view(p.scope), p.name@) + seq!['@'] + p.range@);
        }
        Some(p)
    } else {
        let at = find_char(v, 0, '@');
        let ok = at < n && at > 0 && at + 1 < n && range_avoids(v, 0, at, '/', '/');
        if !ok {
            proof {
                assert forall|sc: Option<Seq<char>>, nm: Seq<char>, rg: Seq<char>|
                    !is_descriptor_text(v@, sc, nm, rg) by {
                    if is_descriptor_text(v@, sc, nm, rg) {
                        match sc {
                            Option::Some(scope) => {
                                assert(v@[0] == '@');
                            },
                            Option::None => {
                                let sep = nm.len() as int;
                                assert(v@[sep] == '@');
                                assert(sep >= at) by {
                                    if sep < at {
                                        assert(v@[sep] != '@');
                                    }
                                }
                                assert(sep <= at) by {
                                    if sep > at && at < n {
                                        assert(nm[at as int] == v@[at as int]);
                                    }
                                }
                                assert(at == sep);
                                assert(at > 0) by {
                                    assert(nm.len() > 0);
                                }
                                assert(at + 1 < n) by {
                                    assert(rg.len() > 0);
                                }
                                let badc = choose|i: int|
                                    0 <= i < at && (v@[i] == '/' || v@[i] == '/');
                                assert(nm[badc] == v@[badc]);
                            },
                        }
                    }
                }
            }
            return None;
        }
        let name = s.substring_char(0, at).to_owned();
        let range = s.substring_char(at + 1, n).to_owned();
        let p = DescParts { scope: None, name, range };
        proof {
            assert(v@ =~= ident_text(scope_view(p.scope), p.name@) + seq!['@'] + p.range@);
        }
        Some(p)
    }
}

impl Descriptor {
    /// Parse `ident@range`. Succeeds exactly when the text is a well-formed
    /// descriptor, and then returns its unique decomposition: the range
    /// begins after the first `@` that follows the name.
    pub fn try_from(value: &str) -> (r: Result<Descriptor, Error>)
        ensures
            r matches Ok(d) ==> is_descriptor_text(
                value@,
                scope_view(d.ident.scope),
                d.ident.name@,
                d.range@,
            ),
            r is Err ==> forall|sc: Option<Seq<char>>, nm: Seq<char>, rg: Seq<char>|
                !is_descriptor_text(value@, sc, nm, rg),
            r matches Err(e) ==> e matches Error::Descriptor(s) && s@ == value@,
    {
        let v = to_chars(value);
        match parse_descriptor_chars(value, &v) {
            Some(p) => Ok(
                Descriptor { ident: Ident { scope: p.scope, name: p.name }, range: p.range },
            ),
            None => Err(Error::Descriptor(value.to_owned())),
        }
    }

    /// Build a descriptor from an identifier's text and a range.
    pub fn new(ident: &str, range: &str) -> (r: Result<Descriptor, Error>)
        ensures
            r matches Ok(d) ==> is_ident_text(ident@, scope_view(d.ident.scope), d.ident.name@)
                && d.range@ == range@,
            r is Err ==> forall|sc: Option<Seq<char>>, nm: Seq<char>| !is_ident_text(
                ident@,
                sc,
                nm,
            ),
    {
        let id = Ident::try_from(ident)?;
        Ok(Descriptor { ident: id, range: range.to_owned() })
    }

    /// The textual form: `ident@range`.
    pub fn to_string(&self) -> (r: String)
        ensures
            r@ == ident_text(scope_view(self.ident.scope), self.ident.name@) + seq!['@']
                + self.range@,
    {
        let mut s = self.ident.to_string();
        s.append("@");
        s.append(self.range.as_str());
        proof {
            reveal_strlit("@");
            assert(s@ =~= ident_text(scope_view(self.ident.scope), self.ident.name@) + seq!['@']
                + self.range@);
        }
        s
    }

    /// The part of a range after its protocol: everything past the first
    /// `:`, or the whole range when it has none.
    pub fn strip_protocol(range: &str) -> (r: &str)
        ensures
            r@ == (if first_from(range@, 0, ':') < range@.len() {
                range@.subrange(first_from(range@, 0, ':') + 1, range@.len() as int)
            } else {
                range@
            }),
    {
        let v = to_chars(range);
        let colon = find_char(&v, 0, ':');
        proof {
            lemma_first_from(range@, 0, ':', colon as int);
        }
        if colon < v.len() {
            range.substring_char(colon + 1, v.len())
        } else {
            range
        }
    }

    /// This descriptor's range without its protocol.
    pub fn range_without_protocol(&self) -> (r: &str)
        ensures
            r@ == (if first_from(self.range@, 0, ':') < self.range@.len() {
                self.range@.subrange(first_from(self.range@, 0, ':') + 1, self.range@.len() as int)
            } else {
                self.range@
            }),
    {
        Descriptor::strip_protocol(self.range.as_str())
    }

    /// This descriptor's protocol: the part of the range before the first
    /// `:`, when there is one.
    pub fn protocol(&self) -> (r: Option<&str>)
        ensures
            first_from(self.range@, 0, ':') < self.range@.len() ==> (r matches Some(p) && p@
                == self.range@.subrange(0, first_from(self.range@, 0, ':'))),
            first_from(self.range@, 0, ':') >= self.range@.len() ==> r is None,
    {
        let v = to_chars(self.range.as_str());
        let colon = find_char(&v, 0, ':');
        proof {
            lemma_first_from(self.range@, 0, ':', colon as int);
        }
        if colon < v.len() {
            Some(self.range.as_str().substring_char(0, colon))
        } else {
            None
        }
    }

    /// A copy of this descriptor that owns its text.
    pub fn into_owned(self) -> (r: Descriptor)
        ensures
            scope_view(r.ident.scope) == scope_view(self.ident.scope),
            r.ident.name@ == self.ident.name@,
            r.range@ == self.range@,
    {
        self
    }

    /// The range. A descriptor of this library always owns its text, so the
    /// range is always available.
    pub fn range(&self) -> (r: Option<&str>)
        ensures
            r matches Some(s) && s@ == self.range@,
    
    {
        Some(self.range.as_str())
    }
}

/// The number of spaces immediately before position `c`.
pub open spec fn spaces_before(s: Seq<char>, c: int) -> int
    decreases c,
{
    if c > 0 && c <= s.len() && s[c - 1] == ' ' {
        1 + spaces_before(s, c - 1)
    } else {
        0
    }
}

/// The number of spaces from position `i` on.
pub open spec fn spaces_from(s: Seq<char>, i: int) -> int
    decreases s.len() - i,
{
    if 0 <= i < s.len() && s[i] == ' ' {
        1 + spaces_from(s, i + 1)
    } else {
        0
    }
}

proof fn lemma_spaces_from_nonneg(s: Seq<char>, i: int)
    ensures
        spaces_from(s, i) >= 0,
    decreases s.len() - i,
{
    if 0 <= i < s.len() && s[i] == ' ' {
        lemma_spaces_from_nonneg(s, i + 1);
    }
}

/// The entries of a lockfile key: split at each comma, with the spaces
/// around the comma belonging to the separator.
pub open spec fn multikey_pieces(s: Seq<char>) -> Seq<Seq<char>>
    decreases s.len() via multikey_pieces_decreases
{
    let c = first_from(s, 0, ',');
    if c >= s.len() {
        seq![s]
    } else {
        let p = c - spaces_before(s, c);
        let q0 = c + 1 + spaces_from(s, c + 1);
        let q = if q0 > s.len() {
            s.len() as int
        } else {
            q0
        };
        seq![s.subrange(0, p)] + multikey_pieces(s.subrange(q, s.len() as int))
    }
}

#[via_fn]
proof fn multikey_pieces_decreases(s: Seq<char>) {
    let c = first_from(s, 0, ',');
    if c < s.len() {
        lemma_spaces_from_nonneg(s, c + 1);
        lemma_first_from_bounds(s, 0, ',');
    }
}

proof fn lemma_first_from_bounds(s: Seq<char>, from: int, c: char)
    requires
        0 <= from <= s.len(),
    ensures
        from <= first_from(s, from, c) <= s.len(),
    decreases s.len() - from,
{
    if from < s.len() && s[from] != c {
        lemma_first_from_bounds(s, from + 1, c);
    }
}

/// What parsing one lockfile entry must yield: the descriptor of the piece,
/// or the report that the piece is not one.
pub open spec fn lockfile_entry_ok(piece: Seq<char>, res: Result<Descriptor, Error>) -> bool {
    match res {
        Result::Ok(d) => is_descriptor_text(piece, scope_view(d.ident.scope), d.ident.name@, d.range@),
        Result::Err(e) => {
            &&& forall|sc: Option<Seq<char>>, nm: Seq<char>, rg: Seq<char>|
                !#[trigger] is_descriptor_text(piece, sc, nm, rg)
            &&& e matches Error::Descriptor(t) && t@ == piece
        },
    }
}

proof fn lemma_spaces_before(s: Seq<char>, c: int, k: int)
    requires
        0 <= c - k,
        c <= s.len(),
        k >= 0,
        forall|j: int| c - k <= j < c ==> s[j] == ' ',
        c - k == 0 || s[c - k - 1] != ' ',
    ensures
        spaces_before(s, c) == k,
    decreases k,
{
    if k > 0 {
        lemma_spaces_before(s, c - 1, k - 1);
    }
}

proof fn lemma_spaces_from(s: Seq<char>, i: int, k: int)
    requires
        0 <= i,
        i + k <= s.len(),
        k >= 0,
        forall|j: int| i <= j < i + k ==> s[j] == ' ',
        i + k == s.len() || s[i + k] != ' ',
    ensures
        spaces_from(s, i) == k,
    decreases k,
{
    if k > 0 {
        lemma_spaces_from(s, i + 1, k - 1);
    }
}

impl Descriptor {
    /// All descriptors present in one lockfile entry key: the entries are
    /// comma-separated, each taken without the spaces around its commas,
    /// and each is parsed as a descriptor.
    pub fn from_lockfile_key(key: &str) -> (r: Vec<Result<Descriptor, Error>>)
        ensures
            r@.len() == multikey_pieces(key@).len(),
            forall|k: int|
                0 <= k < r@.len() ==> lockfile_entry_ok(multikey_pieces(key@)[k], #[trigger] r@[k]),
    {
        let v = to_chars(key);
        let n = v.len();
        let mut out: Vec<Result<Descriptor, Error>> = Vec::new();
        let ghost whole = multikey_pieces(key@);
        proof {
            assert(key@.subrange(0, n as int) =~= key@);
        }
        let mut pos: usize = 0;
        loop
            invariant
                n == v@.len(),
                v@ == key@,
                0 <= pos <= n,
                whole == multikey_pieces(key@),
                out@.len() + multikey_pieces(key@.subrange(pos as int, n as int)).len()
                    == whole.len(),
                forall|k: int|
                    0 <= k < out@.len() ==> lockfile_entry_ok(whole[k], #[trigger] out@[k]),
                forall|k: int|
                    out@.len() <= k < whole.len() ==> whole[k] == multikey_pieces(
                        key@.subrange(pos as int, n as int),
                    )[k - out@.len()],
            decreases n - pos,
        {
            let ghost rest = key@.subrange(pos as int, n as int);
            let comma = find_char(&v, pos, ',');
            if comma >= n {
                proof {
                    lemma_first_from(rest, 0, ',', rest.len() as int);
                    assert forall|j: int| 0 <= j < rest.len() implies rest[j] != ',' by {
                        assert(rest[j] == v@[pos + j]);
                    }
                    assert(multikey_pieces(rest) =~= seq![rest]);
                }
                let piece = key.substring_char(pos, n);
                let d = Descriptor::try_from(piece);
                proof {
                    assert(piece@ == rest);
                    assert(lockfile_entry_ok(whole[out@.len() as int], d));
                }
                out.push(d);
                return out;
            }
            // the separator: the spaces around the comma
            let mut back = comma;
            while back > pos && v[back - 1] == ' '
                invariant
                    pos <= back <= comma < n == v@.len(),
                    forall|j: int| back <= j < comma ==> v@[j] == ' ',
                decreases back,
            {
                back = back - 1;
            }
            let mut fwd = comma + 1;
            while fwd < n && v[fwd] == ' '
                invariant
                    comma + 1 <= fwd <= n == v@.len(),
                    forall|j: int| comma + 1 <= j < fwd ==> v@[j] == ' ',
                decreases n - fwd,
            {
                fwd = fwd + 1;
            }
            proof {
                assert forall|j: int| 0 <= j < rest.len() implies rest[j] == v@[pos + j] by {}
                lemma_first_from(rest, 0, ',', comma - pos);
                lemma_spaces_before(rest, comma - pos, comma - back);
                lemma_spaces_from(rest, comma - pos + 1, fwd - comma - 1);
                assert(rest.subrange(0, back - pos) =~= key@.subrange(pos as int, back as int));
                assert(rest.subrange(fwd - pos, rest.len() as int) =~= key@.subrange(
                    fwd as int,
                    n as int,
                ));
                assert(multikey_pieces(rest) == seq![key@.subrange(pos as int, back as int)]
                    + multikey_pieces(key@.subrange(fwd as int, n as int)));
            }
            let piece = key.substring_char(pos, back);
            let d = Descriptor::try_from(piece);
            proof {
                assert(piece@ == multikey_pieces(rest)[0]);
                assert(whole[out@.len() as int] == piece@);
                assert(lockfile_entry_ok(whole[out@.len() as int], d));
            }
            out.push(d);
            proof {
                assert forall|k: int|
                    out@.len() <= k < whole.len() implies whole[k] == multikey_pieces(
                    key@.subrange(fwd as int, n as int),
                )[k - out@.len()] by {
                    assert(whole[k] == multikey_pieces(rest)[k - out@.len() + 1]);
                }
            }
            pos = fwd;
        }
    }
}

impl PartialEq for Descriptor {
    /// Structural equality: same identifier and same range.
    fn eq(&self, other: &Self) -> (r: bool) {
        self.ident == other.ident && self.range == other.range
    }
}

impl vstd::std_specs::cmp::PartialEqSpecImpl for Descriptor {
    open spec fn obeys_eq_spec() -> bool {
        true
    }

    open spec fn eq_spec(&self, other: &Self) -> bool {
        scope_view(self.ident.scope) == scope_view(other.ident.scope) && self.ident.name@
            == other.ident.name@ && self.range@ == other.range@
    }
}

impl Locator {
    /// Parse `ident@reference`. Descriptors and locators have the same
    /// textual structure, so this accepts exactly the descriptor grammar.
    pub fn try_from(value: &str) -> (r: Result<Locator, Error>)
        ensures
            r matches Ok(l) ==> is_descriptor_text(
                value@,
                scope_view(l.ident.scope),
                l.ident.name@,
                l.reference@,
            ),
            r is Err ==> forall|sc: Option<Seq<char>>, nm: Seq<char>, rg: Seq<char>|
                !is_descriptor_text(value@, sc, nm, rg),
            r matches Err(e) ==> e matches Error::Locator(s) && s@ == value@,
    {
        let v = to_chars(value);
        match parse_descriptor_chars(value, &v) {
            Some(p) => Ok(
                Locator { ident: Ident { scope: p.scope, name: p.name }, reference: p.range },
            ),
            None => Err(Error::Locator(value.to_owned())),
        }
    }

    /// Build a locator from an identifier's text and a reference.
    pub fn new(ident: &str, reference: &str) -> (r: Result<Locator, Error>)
        ensures
            r matches Ok(l) ==> is_ident_text(ident@, scope_view(l.ident.scope), l.ident.name@)
                && l.reference@ == reference@,
            r is Err ==> forall|sc: Option<Seq<char>>, nm: Seq<char>| !is_ident_text(
                ident@,
                sc,
                nm,
            ),
    {
        let id = Ident::try_from(ident)?;
        Ok(Locator { ident: id, reference: reference.to_owned() })
    }

    /// The textual form: `ident@reference`.
    pub fn to_string(&self) -> (r: String)
        ensures
            r@ == ident_text(scope_view(self.ident.scope), self.ident.name@) + seq!['@']
                + self.reference@,
    {
        let mut s = self.ident.to_string();
        s.append("@");
        s.append(self.reference.as_str());
        proof {
            reveal_strlit("@");
            assert(s@ =~= ident_text(scope_view(self.ident.scope), self.ident.name@) + seq!['@']
                + self.reference@);
        }
        s
    }

    /// Whether this locator resolves to the given workspace path: the
    /// reference is `workspace:` followed by exactly that path.
    pub fn is_workspace_path(&self, workspace_path: &str) -> (r: bool)
        ensures
            r == (self.reference@ == "workspace:"@ + workspace_path@),
    {
        let v = to_chars(self.reference.as_str());
        let n = v.len();
        proof {
            reveal_strlit("workspace:");
        }
        let w = to_chars(workspace_path);
        if w.len() > usize::MAX - 10 || n != w.len() + 10 {
            proof {
                if self.reference@ == "workspace:"@ + workspace_path@ {
                    assert(self.reference@.len() == workspace_path@.len() + 10);
                }
            }
            return false;
        }
        let prefix_ok = v[0] == 'w' && v[1] == 'o' && v[2] == 'r' && v[3] == 'k' && v[4] == 's'
            && v[5] == 'p' && v[6] == 'a' && v[7] == 'c' && v[8] == 'e' && v[9] == ':';
        if !prefix_ok {
            proof {
                if self.reference@ == "workspace:"@ + workspace_path@ {
                    assert(self.reference@[0] == 'w' && self.reference@[1] == 'o'
                        && self.reference@[2] == 'r' && self.reference@[3] == 'k'
                        && self.reference@[4] == 's' && self.reference@[5] == 'p'
                        && self.reference@[6] == 'a' && self.reference@[7] == 'c'
                        && self.reference@[8] == 'e' && self.reference@[9] == ':');
                }
            }
            return false;
        }
        let mut i: usize = 0;
        while i < w.len()
            invariant
                n == v@.len() == w@.len() + 10,
                0 <= i <= w@.len(),
                v@ == self.reference@,
                w@ == workspace_path@,
                forall|k: int| 0 <= k < i ==> v@[10 + k] == w@[k],
            decreases w@.len() - i,
        {
            if v[10 + i] != w[i] {
                proof {
                    if self.reference@ == "workspace:"@ + workspace_path@ {
                        assert(self.reference@[10 + i as int] == workspace_path@[i as int]);
                    }
                }
                return false;
            }
            i = i + 1;
        }
        proof {
            assert(self.reference@ =~= "workspace:"@ + workspace_path@);
        }
        true
    }

    /// A copy of this locator that owns its text.
    pub fn as_owned(&self) -> (r: Locator)
        ensures
            scope_view(r.ident.scope) == scope_view(self.ident.scope),
            r.ident.name@ == self.ident.name@,
            r.reference@ == self.reference@,
    {
        Locator { ident: self.ident.into_owned(), reference: self.reference.clone() }
    }
}

/// The locator a patch reference targets, if `s` is one: the patched
/// package's own locator, its reference decoded and normalized.
fn from_patch_reference(s: &str) -> (r: Option<Locator>)
    ensures
        r matches Some(l) ==> exists|i: int, p: int|
            {
                &&& #[trigger] patch_groups_at(s@, i, p)
                &&& exists|rg: Seq<char>|
                    is_descriptor_text(
                        s@.subrange(i + 6, p),
                        scope_view(l.ident.scope),
                        l.ident.name@,
                        rg,
                    ) && l.reference@ == patched_reference(rg)
            },
        r is None ==> !has_patch_reference(s@) || exists|i: int, p: int|
            {
                &&& #[trigger] patch_groups_at(s@, i, p)
                &&& forall|sc: Option<Seq<char>>, nm: Seq<char>, rg: Seq<char>|
                    !#[trigger] is_descriptor_text(s@.subrange(i + 6, p), sc, nm, rg)
            },
{
    let v = to_chars(s);
    let parts = match find_patch_parts(s, &v) {
        Some(pp) => pp,
        None => {
            return None;
        },
    };
    let pkg = s.substring_char(parts.pkg_from, parts.pkg_to);
    match Locator::try_from(pkg) {
        Ok(inner) => {
            let reference = normalize_patched(&inner.reference);
            let l = Locator { ident: inner.ident, reference };
            proof {
                assert(patch_groups_at(s@, parts.pkg_from as int - 6, parts.pkg_to as int));
                assert(pkg@ == s@.subrange(parts.pkg_from as int - 6 + 6, parts.pkg_to as int));
            }
            Some(l)
        },
        Err(_) => {
            proof {
                assert(patch_groups_at(s@, parts.pkg_from as int - 6, parts.pkg_to as int));
                assert(pkg@ == s@.subrange(parts.pkg_from as int - 6 + 6, parts.pkg_to as int));
            }
            None
        },
    }
}

impl Descriptor {
    /// If the descriptor is a patch, the version that the patch targets.
    pub fn primary_version(&self) -> (r: Option<String>)
        ensures
            r matches Some(ver) ==> exists|i: int, p: int|
                {
                    &&& #[trigger] patch_groups_at(self.range@, i, p)
                    &&& exists|sc: Option<Seq<char>>, nm: Seq<char>, rg: Seq<char>|
                        #[trigger] is_descriptor_text(self.range@.subrange(i + 6, p), sc, nm, rg)
                            && ver@ == patched_reference(rg)
                },
            r is None ==> !has_patch_reference(self.range@) || exists|i: int, p: int|
                {
                    &&& #[trigger] patch_groups_at(self.range@, i, p)
                    &&& forall|sc: Option<Seq<char>>, nm: Seq<char>, rg: Seq<char>|
                        !#[trigger] is_descriptor_text(self.range@.subrange(i + 6, p), sc, nm, rg)
                },
    {
        match from_patch_reference(self.range.as_str()) {
            Some(l) => Some(l.reference),
            None => None,
        }
    }
}

/// Whether `s` is exactly `builtin<` followed by a non-empty tag free of
/// `>`, closed by `>`.
pub open spec fn is_builtin_text(s: Seq<char>) -> bool {
    &&& s.len() >= 10
    &&& s[0] == 'b'
    &&& s[1] == 'u'
    &&& s[2] == 'i'
    &&& s[3] == 'l'
    &&& s[4] == 't'
    &&& s[5] == 'i'
    &&& s[6] == 'n'
    &&& s[7] == '<'
    &&& s[s.len() - 1] == '>'
    &&& forall|i: int| 8 <= i < s.len() - 1 ==> s[i] != '>'
}

impl Locator {
    /// Whether a patch path names a builtin patch: it starts with `~`, or
    /// is a `builtin<...>` tag.
    pub fn is_patch_builtin(patch: &str) -> (r: bool)
        ensures
            r == ((patch@.len() > 0 && patch@[0] == '~') || is_builtin_text(patch@)),
    {
        let v = to_chars(patch);
        let n = v.len();
        if n > 0 && v[0] == '~' {
            return true;
        }
        if n < 10 {
            return false;
        }
        let prefix_ok = v[0] == 'b' && v[1] == 'u' && v[2] == 'i' && v[3] == 'l' && v[4] == 't'
            && v[5] == 'i' && v[6] == 'n' && v[7] == '<';
        if !prefix_ok || v[n - 1] != '>' {
            return false;
        }
        let inner_ok = range_avoids(&v, 8, n - 1, '>', '>');
        inner_ok
    }

    /// The patch file this locator's reference names, if it is a patch
    /// reference: the path between the `#` and the options, with a leading
    /// `./` dropped.
    pub fn patch_file(&self) -> (r: Option<&str>)
        ensures
            r is Some <==> has_patch_reference(self.reference@),
            r matches Some(f) ==> exists|i: int, p: int|
                #[trigger] patch_groups_at(self.reference@, i, p) && f@ == patch_file_of(
                    self.reference@,
                    p,
                ),
    {
        let v = to_chars(self.reference.as_str());
        match find_patch_parts(self.reference.as_str(), &v) {
            Some(pp) => {
                let f = self.reference.as_str().substring_char(pp.file_from, pp.file_to);
                proof {
                    assert(patch_groups_at(self.reference@, pp.pkg_from as int - 6, pp.pkg_to as int));
                    assert(f@ == patch_file_of(self.reference@, pp.pkg_to as int));
                }
                Some(f)
            },
            None => None,
        }
    }

    /// The locator of the package this locator patches, if its reference is
    /// a patch reference naming one.
    pub fn patched_locator(&self) -> (r: Option<Locator>)
        ensures
            r matches Some(l) ==> exists|i: int, p: int|
                {
                    &&& #[trigger] patch_groups_at(self.reference@, i, p)
                    &&& exists|rg: Seq<char>|
                        is_descriptor_text(
                            self.reference@.subrange(i + 6, p),
                            scope_view(l.ident.scope),
                            l.ident.name@,
                            rg,
                        ) && l.reference@ == patched_reference(rg)
                },
            r is None ==> !has_patch_reference(self.reference@) || exists|i: int, p: int|
                {
                    &&& #[trigger] patch_groups_at(self.reference@, i, p)
                    &&& forall|sc: Option<Seq<char>>, nm: Seq<char>, rg: Seq<char>|
                        !#[trigger] is_descriptor_text(self.reference@.subrange(i + 6, p), sc, nm, rg)
                },
    {
        from_patch_reference(self.reference.as_str())
    }
}

impl PartialEq for Locator {
    /// Structural equality: same identifier and same reference.
    fn eq(&self, other: &Self) -> (r: bool) {
        self.ident == other.ident && self.reference == other.reference
    }
}

impl vstd::std_specs::cmp::PartialEqSpecImpl for Locator {
    open spec fn obeys_eq_spec() -> bool {
        true
    }

    open spec fn eq_spec(&self, other: &Self) -> bool {
        scope_view(self.ident.scope) == scope_view(other.ident.scope) && self.ident.name@
            == other.ident.name@ && self.reference@ == other.reference@
    }
}

} // verus!
