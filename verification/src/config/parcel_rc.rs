//! What a `.parcelrc` file says, as it was read.

use vstd::prelude::*;

verus! {

/// The configurations that a file builds on: one, or a list.
#[derive(Debug)]
pub enum Extends {
    One(String),
    Many(Vec<String>),
}

/// The contents of a `.parcelrc` file. A plugin is the name of its package;
/// a map is the list of its entries, in the order of the file.
#[derive(Debug)]
pub struct ParcelRc {
    pub extends: Option<Extends>,
    pub bundler: Option<String>,
    pub compressors: Option<Vec<(String, Vec<String>)>>,
    pub namers: Option<Vec<String>>,
    pub optimizers: Option<Vec<(String, Vec<String>)>>,
    pub packagers: Option<Vec<(String, String)>>,
    pub reporters: Option<Vec<String>>,
    pub resolvers: Option<Vec<String>>,
    pub runtimes: Option<Vec<String>>,
    pub transformers: Option<Vec<(String, Vec<String>)>>,
    pub validators: Option<Vec<(String, Vec<String>)>>,
}

/// A `.parcelrc` file: where it lies, and what it says.
#[derive(Debug)]
pub struct ParcelRcFile {
    pub path: String,
    pub contents: ParcelRc,
}

/// The texts of `names`.
pub open spec fn texts(names: Seq<String>) -> Seq<Seq<char>> {
    Seq::new(names.len(), |i: int| names[i]@)
}

/// The texts of a list with one more name are the texts of the list with
/// one more text.
pub proof fn lemma_texts_push(names: Seq<String>, name: String)
    ensures
        texts(names.push(name)) == texts(names).push(name@),
{
    assert(texts(names.push(name)) =~= texts(names).push(name@));
}

/// The configurations that `extends` names, in their order.
pub open spec fn extended(extends: Option<Extends>) -> Seq<Seq<char>> {
    match extends {
        None => Seq::empty(),
        Some(Extends::One(name)) => if name@.len() == 0 {
            Seq::empty()
        } else {
            seq![name@]
        },
        Some(Extends::Many(names)) => texts(names@),
    }
}

impl ParcelRc {
    /// The configurations that the file builds on, in their order. A single
    /// empty name counts as none.
    pub fn extends_list(&self) -> (names: Vec<String>)
        ensures
            texts(names@) == extended(self.extends),
    {
        let mut names: Vec<String> = Vec::new();
        match &self.extends {
            None => {},
            Some(Extends::One(name)) => {
                if !name.as_str().is_empty() {
                    names.push(name.clone());
                }
            },
            Some(Extends::Many(list)) => {
                let mut i: usize = 0;
                while i < list.len()
                    invariant
                        i <= list@.len(),
                        texts(names@) == texts(list@.take(i as int)),
                    decreases list@.len() - i,
                {
                    let ghost before = names@;
                    names.push(list[i].clone());
                    proof {
                        lemma_texts_push(before, list@[i as int]);
                        lemma_texts_push(list@.take(i as int), list@[i as int]);
                        assert(list@.take(i + 1) =~= list@.take(i as int).push(list@[i as int]));
                    }
                    i += 1;
                }
                assert(list@.take(list@.len() as int) =~= list@);
            },
        }
        proof {
            assert(texts(names@) =~= extended(self.extends));
        }
        names
    }
}

} // verus!
