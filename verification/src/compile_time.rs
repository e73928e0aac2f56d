//! Compile-time definitions handed to the build: names bound to boolean or
//! string values.

use vstd::prelude::*;

verus! {

/// The value a compile-time define is bound to.
#[derive(Debug, Clone)]
pub enum CompileTimeDefineValue {
    Bool(bool),
    Str(String),
}

/// The view of a define value: a boolean, or the characters of the string.
pub enum DefineValueView {
    Bool(bool),
    Str(Seq<char>),
}

impl View for CompileTimeDefineValue {
    type V = DefineValueView;

    open spec fn view(&self) -> DefineValueView {
        match self {
            CompileTimeDefineValue::Bool(b) => DefineValueView::Bool(*b),
            CompileTimeDefineValue::Str(s) => DefineValueView::Str(s@),
        }
    }
}

/// The compile-time defines: dotted names, each a list of segments, bound
/// to values. The names are unique.
#[derive(Debug, Clone)]
pub struct CompileTimeDefines {
    pub entries: Vec<(Vec<String>, CompileTimeDefineValue)>,
}

/// The view of a dotted name: its segments' characters.
pub open spec fn name_view(name: Seq<String>) -> Seq<Seq<char>> {
    Seq::new(name.len(), |i: int| name[i]@)
}

/// Well-formed defines bind each name at most once.
pub open spec fn defines_wf(entries: Seq<(Vec<String>, CompileTimeDefineValue)>) -> bool {
    forall|i: int, j: int|
        0 <= i < entries.len() && 0 <= j < entries.len() && name_view((#[trigger] entries[i]).0@)
            == name_view((#[trigger] entries[j]).0@) ==> i == j
}

/// The index of the entry bound to `key`, if any.
pub open spec fn find_name(
    entries: Seq<(Vec<String>, CompileTimeDefineValue)>,
    key: Seq<Seq<char>>,
) -> Option<int>
    decreases entries.len(),
{
    if entries.len() == 0 {
        Option::None
    } else if name_view(entries[0].0@) == key {
        Option::Some(0)
    } else {
        match find_name(entries.drop_first(), key) {
            Option::Some(i) => Option::Some(i + 1),
            Option::None => Option::None,
        }
    }
}

proof fn lemma_find_name_some(
    entries: Seq<(Vec<String>, CompileTimeDefineValue)>,
    key: Seq<Seq<char>>,
    i: int,
)
    requires
        0 <= i < entries.len(),
        name_view(entries[i].0@) == key,
        forall|j: int| 0 <= j < i ==> name_view((#[trigger] entries[j]).0@) != key,
    ensures
        find_name(entries, key) == Option::Some(i),
    decreases i,
{
    if i > 0 {
        lemma_find_name_some(entries.drop_first(), key, i - 1);
    }
}

proof fn lemma_find_name_none(
    entries: Seq<(Vec<String>, CompileTimeDefineValue)>,
    key: Seq<Seq<char>>,
)
    requires
        forall|j: int| 0 <= j < entries.len() ==> name_view((#[trigger] entries[j]).0@) != key,
    ensures
        find_name(entries, key) == Option::<int>::None,
    decreases entries.len(),
{
    if entries.len() > 0 {
        lemma_find_name_none(entries.drop_first(), key);
    }
}

/// Whether two dotted names have the same segments.
fn eq_names(a: &Vec<String>, b: &Vec<String>) -> (r: bool)
    ensures
        r == (name_view(a@) == name_view(b@)),
{
    let n = a.len();
    if n != b.len() {
        proof {
            assert(name_view(a@).len() != name_view(b@).len());
        }
        return false;
    }
    let mut i: usize = 0;
    while i < n
        invariant
            n == a@.len() == b@.len(),
            0 <= i <= n,
            forall|k: int| 0 <= k < i ==> a@[k]@ == b@[k]@,
        decreases n - i,
    {
        if !(a[i] == b[i]) {
            proof {
                assert(name_view(a@)[i as int] != name_view(b@)[i as int]);
            }
            return false;
        }
        i = i + 1;
    }
    proof {
        assert(name_view(a@) =~= name_view(b@));
    }
    true
}

impl CompileTimeDefines {
    /// No defines.
    pub fn empty() -> (r: CompileTimeDefines)
        ensures
            r.entries@ == Seq::<(Vec<String>, CompileTimeDefineValue)>::empty(),
            defines_wf(r.entries@),
    {
        let r = CompileTimeDefines { entries: Vec::new() };
        r
    }

    /// Bind a dotted name to a value: the binding replaces an existing one
    /// for the same name and is appended otherwise, so names stay unique.
    pub fn define(&mut self, name: Vec<String>, value: CompileTimeDefineValue)
        requires
            defines_wf(old(self).entries@),
        ensures
            defines_wf(final(self).entries@),
            match find_name(old(self).entries@, name_view(name@)) {
                Option::Some(i) => final(self).entries@ == old(self).entries@.update(
                    i,
                    (name, value),
                ),
                Option::None => final(self).entries@ == old(self).entries@.push((name, value)),
            },
    {
        let ghost key = name_view(name@);
        let n = self.entries.len();
        let mut i: usize = 0;
        while i < n
            invariant
                n == self.entries@.len(),
                0 <= i <= n,
                self.entries@ == old(self).entries@,
                defines_wf(old(self).entries@),
                key == name_view(name@),
                forall|j: int| 0 <= j < i ==> name_view((#[trigger] self.entries@[j]).0@) != key,
            decreases n - i,
        {
            if eq_names(&self.entries[i].0, &name) {
                proof {
                    lemma_find_name_some(self.entries@, key, i as int);
                }
                let slot = &mut self.entries[i];
                *slot = (name, value);
                proof {
                    assert forall|p: int, q: int|
                        0 <= p < self.entries@.len() && 0 <= q < self.entries@.len() && name_view(
                            (#[trigger] self.entries@[p]).0@,
                        ) == name_view((#[trigger] self.entries@[q]).0@) implies p == q by {
                        let before = old(self).entries@;
                        assert(name_view(self.entries@[p].0@) == name_view(before[p].0@));
                        assert(name_view(self.entries@[q].0@) == name_view(before[q].0@));
                    }
                }
                return ;
            }
            i = i + 1;
        }
        proof {
            lemma_find_name_none(self.entries@, key);
        }
        self.entries.push((name, value));
        proof {
            assert forall|p: int, q: int|
                0 <= p < self.entries@.len() && 0 <= q < self.entries@.len() && name_view(
                    (#[trigger] self.entries@[p]).0@,
                ) == name_view((#[trigger] self.entries@[q]).0@) implies p == q by {
                let before = old(self).entries@;
                if p < before.len() && q < before.len() {
                    assert(name_view(before[p].0@) == name_view(before[q].0@));
                }
            }
        }
    }

    /// The value bound to a dotted name, if any.
    pub fn get(&self, name: &Vec<String>) -> (r: Option<&CompileTimeDefineValue>)
        ensures
            match find_name(self.entries@, name_view(name@)) {
                Option::Some(i) => r matches Some(v) && *v == self.entries@[i].1,
                Option::None => r is None,
            },
    {
        let ghost key = name_view(name@);
        let n = self.entries.len();
        let mut i: usize = 0;
        while i < n
            invariant
                n == self.entries@.len(),
                0 <= i <= n,
                key == name_view(name@),
                forall|j: int| 0 <= j < i ==> name_view((#[trigger] self.entries@[j]).0@) != key,
            decreases n - i,
        {
            if eq_names(&self.entries[i].0, name) {
                proof {
                    lemma_find_name_some(self.entries@, key, i as int);
                }
                return Some(&self.entries[i].1);
            }
            i = i + 1;
        }
        proof {
            lemma_find_name_none(self.entries@, key);
        }
        None
    }
}

impl From<bool> for CompileTimeDefineValue {
    /// A boolean define.
    fn from(value: bool) -> (r: Self) {
        CompileTimeDefineValue::Bool(value)
    }
}

impl vstd::std_specs::convert::FromSpecImpl<bool> for CompileTimeDefineValue {
    open spec fn obeys_from_spec() -> bool {
        true
    }

    open spec fn from_spec(value: bool) -> Self {
        CompileTimeDefineValue::Bool(value)
    }
}

impl From<String> for CompileTimeDefineValue {
    /// A string define.
    fn from(value: String) -> (r: Self) {
        CompileTimeDefineValue::Str(value)
    }
}

impl vstd::std_specs::convert::FromSpecImpl<String> for CompileTimeDefineValue {
    open spec fn obeys_from_spec() -> bool {
        true
    }

    open spec fn from_spec(value: String) -> Self {
        CompileTimeDefineValue::Str(value)
    }
}

} // verus!
