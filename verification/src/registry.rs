//! The identities that passed a challenge: a set of names without order.
use vstd::prelude::*;
use vstd::string::StringExecFns;
use dashmap::DashSet;

verus! {

/// `dashmap::DashSet`, carried as an opaque value.
#[verifier::external_type_specification]
#[verifier::external_body]
#[verifier::reject_recursive_types(K)]
#[verifier::reject_recursive_types(S)]
pub struct ExDashSet<K, S>(DashSet<K, S>);

/// The names that a `DashSet<String>` holds, each as its characters.
pub uninterp spec fn held_names(set: DashSet<String>) -> Set<Seq<char>>;

/// Calls `DashSet::new`.
///
/// Trusted: the new set holds no name.
#[verifier::external_body]
fn empty_set() -> (set: DashSet<String>)
    ensures
        held_names(set) == Set::<Seq<char>>::empty(),
{
    DashSet::new()
}

/// Calls `DashSet::insert`.
///
/// Trusted: afterwards the set holds `name` besides what it held, and the
/// result tells whether `name` was new to it. The exclusive borrow rules out
/// a reference into the set during the call, under which the call could block.
#[verifier::external_body]
fn insert_name(set: &mut DashSet<String>, name: String) -> (fresh: bool)
    ensures
        held_names(*final(set)) == held_names(*old(set)).insert(name@),
        fresh == !held_names(*old(set)).contains(name@),
{
    set.insert(name)
}

/// Walks the set with `DashSet::iter` and copies each name out.
///
/// Trusted: every name that the set holds comes out once and nothing else
/// does. The order is the set's own and is left open.
#[verifier::external_body]
fn collect_names(set: &DashSet<String>) -> (names: Vec<String>)
    ensures
        is_listing(held_names(*set), names@.map_values(|s: String| s@)),
{
    set.iter().map(|name| name.key().clone()).collect()
}

/// `names` lists the members of `set`, each once, in some order.
pub open spec fn is_listing(set: Set<Seq<char>>, names: Seq<Seq<char>>) -> bool {
    &&& names.no_duplicates()
    &&& forall|name: Seq<char>| names.contains(name) <==> set.contains(name)
}

/// The text that holds `names` one per line, each line ended by a newline.
pub open spec fn lines(names: Seq<Seq<char>>) -> Seq<char>
    decreases names.len(),
{
    if names.len() == 0 {
        Seq::empty()
    } else {
        lines(names.drop_last()) + names.last() + seq!['\n']
    }
}

/// The registered identities. Its view is the set of their names.
pub struct Registry {
    names: DashSet<String>,
}

impl View for Registry {
    type V = Set<Seq<char>>;

    closed spec fn view(&self) -> Set<Seq<char>> {
        held_names(self.names)
    }
}

impl Registry {
    /// A registry without identities.
    pub fn new() -> (r: Self)
        ensures
            r@ == Set::<Seq<char>>::empty(),
    {
        Registry { names: empty_set() }
    }

    /// Registers `name` and tells whether it was new.
    pub fn register(&mut self, name: String) -> (fresh: bool)
        ensures
            final(self)@ == old(self)@.insert(name@),
            fresh == !old(self)@.contains(name@),
    {
        insert_name(&mut self.names, name)
    }

    /// The registered names, one per line, in no particular order.
    pub fn listing(&self) -> (text: String)
        ensures
            exists|names: Seq<Seq<char>>| is_listing(self@, names) && text@ == lines(names),
    {
        let names = collect_names(&self.names);
        let ghost all = names@.map_values(|s: String| s@);
        let mut text = String::new();
        let mut i: usize = 0;
        while i < names.len()
            invariant
                i <= names@.len(),
                all == names@.map_values(|s: String| s@),
                text@ == lines(all.subrange(0, i as int)),
            decreases names@.len() - i,
        {
            proof {
                let upto = all.subrange(0, i + 1);
                assert(upto.drop_last() =~= all.subrange(0, i as int));
                assert(upto.last() == names@[i as int]@);
                reveal_strlit("\n");
                assert("\n"@ =~= seq!['\n']);
            }
            text.append(names[i].as_str());
            text.append("\n");
            i += 1;
        }
        proof {
            assert(all.subrange(0, i as int) =~= all);
        }
        text
    }
}

} // verus!
