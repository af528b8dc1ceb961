//! Short lists that live on the stack until they outgrow it.

use smallvec::SmallVec;
use vstd::prelude::*;
use crate::metadata::MetaFile;

verus! {

/// A `smallvec::SmallVec` with room for sixteen items before it moves to the
/// heap. What it holds is known only through `held_strings`, `held_files`
/// and `held_tiers`.
#[verifier::external_body]
#[verifier::reject_recursive_types(T)]
#[derive(Debug)]
pub struct StackVec<T> {
    inner: SmallVec<[T; 16]>,
}

/// The texts that a list of strings holds, in order.
pub uninterp spec fn held_strings(list: StackVec<String>) -> Seq<Seq<char>>;

/// The files that a list of files holds, in order.
pub uninterp spec fn held_files(list: StackVec<MetaFile>) -> Seq<MetaFile>;

/// For each list that a list of lists of strings holds, in order, its texts.
pub uninterp spec fn held_tiers(list: StackVec<StackVec<String>>) -> Seq<Seq<Seq<char>>>;

/// `SmallVec::new`: a list that holds nothing.
#[verifier::external_body]
fn strings_new() -> (r: StackVec<String>)
    ensures
        held_strings(r) == Seq::<Seq<char>>::empty(),
{
    StackVec { inner: SmallVec::new() }
}

/// `SmallVec::push`: the list holds `item` after what it held.
#[verifier::external_body]
fn strings_push(list: &mut StackVec<String>, item: String)
    ensures
        held_strings(*final(list)) == held_strings(*old(list)).push(item@),
{
    list.inner.push(item)
}

/// `SmallVec::len`: how many strings the list holds.
#[verifier::external_body]
pub(crate) fn strings_len(list: &StackVec<String>) -> (r: usize)
    ensures
        r == held_strings(*list).len(),
{
    list.inner.len()
}

/// `SmallVec`'s `Index`: the string at position `i`.
#[verifier::external_body]
pub(crate) fn strings_at(list: &StackVec<String>, i: usize) -> (r: &String)
    requires
        i < held_strings(*list).len(),
    ensures
        r@ == held_strings(*list)[i as int],
{
    &list.inner[i]
}

/// `SmallVec::new`: a list that holds nothing.
#[verifier::external_body]
fn files_new() -> (r: StackVec<MetaFile>)
    ensures
        held_files(r) == Seq::<MetaFile>::empty(),
{
    StackVec { inner: SmallVec::new() }
}

/// `SmallVec::push`: the list holds `item` after what it held.
#[verifier::external_body]
fn files_push(list: &mut StackVec<MetaFile>, item: MetaFile)
    ensures
        held_files(*final(list)) == held_files(*old(list)).push(item),
{
    list.inner.push(item)
}

/// `SmallVec::len`: how many files the list holds.
#[verifier::external_body]
pub(crate) fn files_len(list: &StackVec<MetaFile>) -> (r: usize)
    ensures
        r == held_files(*list).len(),
{
    list.inner.len()
}

/// `SmallVec`'s `Index`: the file at position `i`.
#[verifier::external_body]
pub(crate) fn files_at(list: &StackVec<MetaFile>, i: usize) -> (r: &MetaFile)
    requires
        i < held_files(*list).len(),
    ensures
        *r == held_files(*list)[i as int],
{
    &list.inner[i]
}

/// `SmallVec::new`: a list that holds nothing.
#[verifier::external_body]
fn tiers_new() -> (r: StackVec<StackVec<String>>)
    ensures
        held_tiers(r) == Seq::<Seq<Seq<char>>>::empty(),
{
    StackVec { inner: SmallVec::new() }
}

/// `SmallVec::push`: the list holds `item` after what it held.
#[verifier::external_body]
fn tiers_push(list: &mut StackVec<StackVec<String>>, item: StackVec<String>)
    ensures
        held_tiers(*final(list)) == held_tiers(*old(list)).push(held_strings(item)),
{
    list.inner.push(item)
}

/// `SmallVec::len`: how many lists the list holds.
#[verifier::external_body]
pub(crate) fn tiers_len(list: &StackVec<StackVec<String>>) -> (r: usize)
    ensures
        r == held_tiers(*list).len(),
{
    list.inner.len()
}

/// `SmallVec`'s `Index`: the list at position `i`.
#[verifier::external_body]
pub(crate) fn tiers_at(list: &StackVec<StackVec<String>>, i: usize) -> (r: &StackVec<String>)
    requires
        i < held_tiers(*list).len(),
    ensures
        held_strings(*r) == held_tiers(*list)[i as int],
{
    &list.inner[i]
}

/// The texts of a list of strings.
pub open spec fn texts(list: Seq<String>) -> Seq<Seq<char>> {
    Seq::new(list.len(), |i: int| list[i]@)
}

/// The lengths of a list of files.
pub open spec fn lengths_of(files: Seq<MetaFile>) -> Seq<i64> {
    Seq::new(files.len(), |i: int| files[i].length)
}

/// The texts of each list of a list of lists.
pub open spec fn tiers_of(tiers: Seq<StackVec<String>>) -> Seq<Seq<Seq<char>>> {
    Seq::new(tiers.len(), |i: int| held_strings(tiers[i]))
}

/// The items of `v`, last first.
pub fn reversed<T>(v: Vec<T>) -> (r: Vec<T>)
    ensures
        r@.len() == v@.len(),
        forall|j: int| 0 <= j < r@.len() ==> r@[j] == v@[v@.len() - 1 - j],
{
    let ghost v0 = v@;
    let mut v = v;
    let mut r: Vec<T> = Vec::new();
    loop
        invariant
            r@.len() <= v0.len(),
            v@ == v0.take(v0.len() - r@.len()),
            forall|j: int| 0 <= j < r@.len() ==> r@[j] == v0[v0.len() - 1 - j],
        ensures
            r@.len() == v0.len(),
        decreases v@.len(),
    {
        match v.pop() {
            Some(x) => {
                r.push(x);
            },
            None => {
                break ;
            },
        }
    }
    r
}

impl StackVec<String> {
    /// A list that holds the strings of `v`, in order.
    pub fn from_strings(v: Vec<String>) -> (r: StackVec<String>)
        ensures
            held_strings(r) == texts(v@),
    {
        let ghost v0 = v@;
        let mut rest = reversed(v);
        let mut out = strings_new();
        loop
            invariant
                rest@.len() <= v0.len(),
                forall|j: int| 0 <= j < rest@.len() ==> rest@[j] == v0[v0.len() - 1 - j],
                held_strings(out) == texts(v0.take(v0.len() - rest@.len())),
            ensures
                held_strings(out) == texts(v0),
            decreases rest@.len(),
        {
            let ghost k = v0.len() - rest@.len();
            match rest.pop() {
                Some(x) => {
                    strings_push(&mut out, x);
                    proof {
                        assert(texts(v0.take(k + 1)) =~= texts(v0.take(k)).push(v0[k]@));
                    }
                },
                None => {
                    proof {
                        assert(v0.take(k) == v0);
                    }
                    break ;
                },
            }
        }
        out
    }

    /// The string at position `i`, if there is one.
    pub fn item(&self, i: usize) -> (r: Option<&String>)
        ensures
            r.is_some() == (i < held_strings(*self).len()),
            r matches Some(s) ==> s@ == held_strings(*self)[i as int],
    {
        if i < strings_len(self) {
            Some(strings_at(self, i))
        } else {
            None
        }
    }
}

impl StackVec<MetaFile> {
    /// A list that holds the files of `v`, in order.
    pub fn from_files(v: Vec<MetaFile>) -> (r: StackVec<MetaFile>)
        ensures
            held_files(r) == v@,
    {
        let ghost v0 = v@;
        let mut rest = reversed(v);
        let mut out = files_new();
        loop
            invariant
                rest@.len() <= v0.len(),
                forall|j: int| 0 <= j < rest@.len() ==> rest@[j] == v0[v0.len() - 1 - j],
                held_files(out) == v0.take(v0.len() - rest@.len()),
            ensures
                held_files(out) == v0,
            decreases rest@.len(),
        {
            let ghost k = v0.len() - rest@.len();
            match rest.pop() {
                Some(x) => {
                    files_push(&mut out, x);
                    proof {
                        assert(v0.take(k + 1) =~= v0.take(k).push(v0[k]));
                    }
                },
                None => {
                    proof {
                        assert(v0.take(k) == v0);
                    }
                    break ;
                },
            }
        }
        out
    }

    /// The file at position `i`, if there is one.
    pub fn item(&self, i: usize) -> (r: Option<&MetaFile>)
        ensures
            r.is_some() == (i < held_files(*self).len()),
            r matches Some(f) ==> *f == held_files(*self)[i as int],
    {
        if i < files_len(self) {
            Some(files_at(self, i))
        } else {
            None
        }
    }
}

impl StackVec<StackVec<String>> {
    /// A list that holds the lists of `v`, in order.
    pub fn from_tiers(v: Vec<StackVec<String>>) -> (r: StackVec<StackVec<String>>)
        ensures
            held_tiers(r) == tiers_of(v@),
    {
        let ghost v0 = v@;
        let mut rest = reversed(v);
        let mut out = tiers_new();
        loop
            invariant
                rest@.len() <= v0.len(),
                forall|j: int| 0 <= j < rest@.len() ==> rest@[j] == v0[v0.len() - 1 - j],
                held_tiers(out) == tiers_of(v0.take(v0.len() - rest@.len())),
            ensures
                held_tiers(out) == tiers_of(v0),
            decreases rest@.len(),
        {
            let ghost k = v0.len() - rest@.len();
            match rest.pop() {
                Some(x) => {
                    tiers_push(&mut out, x);
                    proof {
                        assert(tiers_of(v0.take(k + 1)) =~= tiers_of(v0.take(k)).push(
                            held_strings(v0[k]),
                        ));
                    }
                },
                None => {
                    proof {
                        assert(v0.take(k) == v0);
                    }
                    break ;
                },
            }
        }
        out
    }

    /// The list at position `i`, if there is one.
    pub fn item(&self, i: usize) -> (r: Option<&StackVec<String>>)
        ensures
            r.is_some() == (i < held_tiers(*self).len()),
            r matches Some(t) ==> held_strings(*t) == held_tiers(*self)[i as int],
    {
        if i < tiers_len(self) {
            Some(tiers_at(self, i))
        } else {
            None
        }
    }
}

} // verus!
