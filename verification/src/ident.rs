//! Asset identifiers: the primary path of an asset together with its query
//! string, fragment, nested assets, modifiers and module part, and the
//! canonical textual form built from them.

use vstd::prelude::*;

verus! {

broadcast use
    vstd::std_specs::vec::group_vec_axioms,
    vstd::seq::axiom_seq_index_decreases,
    vstd::seq::axiom_seq_subrange_decreases;

/// The identity of an asset.
#[derive(Debug)]
pub struct AssetIdent {
    /// The primary path of the asset.
    pub path: String,
    /// The query string of the asset (e.g. `?foo=bar`).
    pub query: Option<String>,
    /// The fragment of the asset (e.g. `#foo`).
    pub fragment: Option<String>,
    /// The assets that are nested in this asset, each under a key.
    pub assets: Vec<(String, Box<AssetIdent>)>,
    /// The modifiers of this asset (e.g. `client chunks`).
    pub modifiers: Vec<String>,
    /// The part of the asset that is a module, by its index.
    pub part: Option<u64>,
}

/// The shape of an asset identifier.
pub struct AssetIdentView {
    pub path: Seq<char>,
    pub query: Option<Seq<char>>,
    pub fragment: Option<Seq<char>>,
    pub assets: Seq<(Seq<char>, Box<AssetIdentView>)>,
    pub modifiers: Seq<Seq<char>>,
    pub part: Option<u64>,
}

/// The views of nested assets, elementwise.
pub open spec fn asset_views(assets: Seq<(String, Box<AssetIdent>)>) -> Seq<
    (Seq<char>, Box<AssetIdentView>),
>
    decreases assets,
{
    if assets.len() <= 0 {
        Seq::empty()
    } else {
        asset_views(assets.drop_last()).push(
            (
                assets[assets.len() - 1].0@,
                Box::new(ident_view(*assets[assets.len() - 1].1)),
            ),
        )
    }
}

/// The shape of one asset identifier.
pub open spec fn ident_view(id: AssetIdent) -> AssetIdentView
    decreases id,
{
    AssetIdentView {
        path: id.path@,
        query: match id.query {
            Option::Some(q) => Option::Some(q@),
            Option::None => Option::None,
        },
        fragment: match id.fragment {
            Option::Some(f) => Option::Some(f@),
            Option::None => Option::None,
        },
        assets: asset_views(id.assets@),
        modifiers: Seq::new(id.modifiers@.len(), |i: int| id.modifiers@[i]@),
        part: id.part,
    }
}

pub broadcast proof fn lemma_asset_views(assets: Seq<(String, Box<AssetIdent>)>)
    ensures
        #[trigger] asset_views(assets).len() == assets.len(),
        forall|i: int|
            0 <= i < assets.len() ==> asset_views(assets)[i] == (
            assets[i].0@,
            Box::new(ident_view(*assets[i].1)),
        ),
    decreases assets,
{
    if assets.len() > 0 {
        lemma_asset_views(assets.drop_last());
    }
}

/// A prefixed optional part: nothing, or the prefix and the text.
pub open spec fn opt_text(prefix: char, o: Option<Seq<char>>) -> Seq<char> {
    match o {
        Option::Some(s) => seq![prefix] + s,
        Option::None => Seq::empty(),
    }
}

/// The text of the nested assets: `/(key)/` and the asset's own text, in
/// order.
pub open spec fn assets_text(assets: Seq<(Seq<char>, Box<AssetIdentView>)>) -> Seq<char>
    decreases assets, 0int,
{
    if assets.len() <= 0 {
        Seq::empty()
    } else {
        assets_text(assets.drop_last()) + seq!['/', '('] + assets[assets.len() - 1].0 + seq![
            ')',
            '/',
        ] + ident_string(*assets[assets.len() - 1].1)
    }
}

/// The modifiers joined by `, `.
pub open spec fn mods_join(ms: Seq<Seq<char>>) -> Seq<char>
    decreases ms,
{
    if ms.len() <= 0 {
        Seq::empty()
    } else if ms.len() == 1 {
        ms[0]
    } else {
        mods_join(ms.drop_last()) + seq![',', ' '] + ms[ms.len() - 1]
    }
}

/// The modifier suffix: nothing, or the modifiers joined in parentheses.
pub open spec fn mods_text(ms: Seq<Seq<char>>) -> Seq<char> {
    if ms.len() == 0 {
        Seq::empty()
    } else {
        seq![' ', '('] + mods_join(ms) + seq![')']
    }
}

/// The canonical text of an asset identifier: the path, the query and
/// fragment when set, the nested assets, and the modifiers.
pub open spec fn ident_string(v: AssetIdentView) -> Seq<char>
    decreases v, 1int,
{
    v.path + opt_text('?', v.query) + opt_text('#', v.fragment) + assets_text(v.assets)
        + mods_text(v.modifiers)
}

impl View for AssetIdent {
    type V = AssetIdentView;

    open spec fn view(&self) -> AssetIdentView {
        ident_view(*self)
    }
}

impl AssetIdent {
    /// An identifier of the given path, with nothing else.
    pub fn from_path(path: String) -> (r: AssetIdent)
        ensures
            r@.path == path@,
            r@.query is None,
            r@.fragment is None,
            r@.assets == Seq::<(Seq<char>, Box<AssetIdentView>)>::empty(),
            r@.modifiers == Seq::<Seq<char>>::empty(),
            r@.part is None,
    {
        let r = AssetIdent {
            path,
            query: None,
            fragment: None,
            assets: Vec::new(),
            modifiers: Vec::new(),
            part: None,
        };
        proof {
            assert(r@.assets =~= Seq::<(Seq<char>, Box<AssetIdentView>)>::empty());
            assert(r@.modifiers =~= Seq::<Seq<char>>::empty());
        }
        r
    }

    /// Append one modifier.
    pub fn add_modifier(&mut self, modifier: String)
        ensures
            final(self)@ == (AssetIdentView {
                modifiers: old(self)@.modifiers.push(modifier@),
                ..old(self)@
            }),
    {
        self.modifiers.push(modifier);
        proof {
            assert(self@.modifiers =~= old(self)@.modifiers.push(modifier@));
            assert(self@.assets =~= old(self)@.assets);
        }
    }

    /// Nest one more asset under a key.
    pub fn add_asset(&mut self, key: String, asset: AssetIdent)
        ensures
            final(self)@ == (AssetIdentView {
                assets: old(self)@.assets.push((key@, Box::new(asset@))),
                ..old(self)@
            }),
    {
        let ghost pre = self@;
        proof {
            lemma_asset_views(self.assets@);
        }
        self.assets.push((key, Box::new(asset)));
        proof {
            lemma_asset_views(self.assets@);
            assert(self@.assets =~= pre.assets.push((key@, Box::new(asset@))));
            assert(self@.modifiers =~= pre.modifiers);
        }
    }

    /// This identifier with one more modifier.
    pub fn with_modifier(self, modifier: String) -> (r: AssetIdent)
        ensures
            r@ == (AssetIdentView { modifiers: self@.modifiers.push(modifier@), ..self@ }),
    {
        let mut this = self;
        this.add_modifier(modifier);
        this
    }

    /// This identifier with its module part set.
    pub fn with_part(self, part: u64) -> (r: AssetIdent)
        ensures
            r@ == (AssetIdentView { part: Some(part), ..self@ }),
    {
        let mut this = self;
        this.part = Some(part);
        proof {
            assert(this@.assets =~= self@.assets);
            assert(this@.modifiers =~= self@.modifiers);
        }
        this
    }

    /// The primary path.
    pub fn path(&self) -> (r: &String)
        ensures
            r@ == self@.path,
    {
        &self.path
    }

    /// The canonical text of this identifier: the path, `?query` and
    /// `#fragment` when set, each nested asset as `/(key)/` and its own
    /// text, and the modifiers joined by `, ` in parentheses.
    pub fn to_string(&self) -> (r: String)
        ensures
            r@ == ident_string(self@),
        decreases *self,
    {
        proof {
            lemma_asset_views(self.assets@);
        }
        let mut s = self.path.clone();
        match &self.query {
            Some(q) => {
                s.append("?");
                s.append(q.as_str());
            },
            None => {},
        }
        match &self.fragment {
            Some(f) => {
                s.append("#");
                s.append(f.as_str());
            },
            None => {},
        }
        proof {
            reveal_strlit("?");
            reveal_strlit("#");
            assert(s@ =~= self@.path + opt_text('?', self@.query) + opt_text(
                '#',
                self@.fragment,
            ));
        }
        let ghost head = s@;
        let na = self.assets.len();
        let mut i: usize = 0;
        while i < na
            invariant
                na == self.assets@.len(),
                0 <= i <= na,
                self@.assets.len() == na,
                forall|k: int|
                    0 <= k < na ==> self@.assets[k] == (
                    self.assets@[k].0@,
                    Box::new(ident_view(*self.assets@[k].1)),
                ),
                s@ == head + assets_text(self@.assets.take(i as int)),
            decreases na - i,
        {
            let ghost pre = s@;
            s.append("/(");
            s.append(self.assets[i].0.as_str());
            s.append(")/");
            let child = (*self.assets[i].1).to_string();
            s.append(child.as_str());
            proof {
                reveal_strlit("/(");
                reveal_strlit(")/");
                let taken = self@.assets.take(i as int + 1);
                assert(taken.drop_last() =~= self@.assets.take(i as int));
                assert(taken[taken.len() - 1] == self@.assets[i as int]);
                assert(child@ == ident_string(*self@.assets[i as int].1));
                assert(s@ =~= head + assets_text(taken));
            }
            i = i + 1;
        }
        proof {
            assert(self@.assets.take(na as int) =~= self@.assets);
        }
        let ghost head2 = s@;
        let nm = self.modifiers.len();
        if nm > 0 {
            s.append(" (");
            proof {
                reveal_strlit(" (");
                assert(s@ =~= head2 + seq![' ', '(']);
            }
            let mut j: usize = 0;
            while j < nm
                invariant
                    nm == self.modifiers@.len(),
                    0 < nm,
                    0 <= j <= nm,
                    self@.modifiers.len() == nm,
                    forall|k: int| 0 <= k < nm ==> self@.modifiers[k] == self.modifiers@[k]@,
                    j == 0 ==> s@ == head2 + seq![' ', '('],
                    j > 0 ==> s@ == head2 + seq![' ', '('] + mods_join(
                        self@.modifiers.take(j as int),
                    ),
                decreases nm - j,
            {
                if j > 0 {
                    s.append(", ");
                }
                s.append(self.modifiers[j].as_str());
                proof {
                    reveal_strlit(" (");
                    reveal_strlit(", ");
                    let taken = self@.modifiers.take(j as int + 1);
                    assert(taken.drop_last() =~= self@.modifiers.take(j as int));
                    assert(taken[taken.len() - 1] == self@.modifiers[j as int]);
                    if j == 0 {
                        assert(mods_join(taken) == self@.modifiers[0]);
                    }
                    assert(s@ =~= head2 + seq![' ', '('] + mods_join(taken));
                }
                j = j + 1;
            }
            s.append(")");
            proof {
                reveal_strlit(" (");
                reveal_strlit(")");
                assert(self@.modifiers.take(nm as int) =~= self@.modifiers);
                assert(s@ =~= head2 + mods_text(self@.modifiers));
            }
        } else {
            proof {
                assert(self@.modifiers.len() == 0);
                assert(s@ =~= head2 + mods_text(self@.modifiers));
            }
        }
        proof {
            assert(s@ =~= ident_string(self@));
        }
        s
    }
}

} // verus!
