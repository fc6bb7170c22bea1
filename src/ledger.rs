use crate::binding::TypeDescriptor;
use crate::emit::{derive_to_js, to_js_spec, GenError};
use crate::naming::views;
use vstd::prelude::*;

verus! {

/// All entries joined in order, with nothing between them.
pub open spec fn concat_all(entries: Seq<Seq<char>>) -> Seq<char>
    decreases entries.len(),
{
    if entries.len() == 0 {
        Seq::empty()
    } else {
        concat_all(entries.drop_last()) + entries.last()
    }
}

/// The ordered record of the definitions generated for each registered type,
/// drained once into a single artifact.
pub struct Ledger {
    entries: Vec<String>,
}

impl Ledger {
    /// The generated definitions, in registration order.
    pub closed spec fn view(&self) -> Seq<Seq<char>> {
        views(self.entries@)
    }

    /// An empty ledger.
    pub fn new() -> (r: Ledger)
        ensures
            r@ == Seq::<Seq<char>>::empty(),
    {
        let r = Ledger { entries: Vec::new() };
        proof {
            assert(r@ =~= Seq::<Seq<char>>::empty());
        }
        r
    }

    /// The number of registered types.
    pub fn len(&self) -> (r: usize)
        ensures
            r == self@.len(),
    {
        self.entries.len()
    }

    /// Generates the definitions for `desc` and appends them as one entry; on
    /// an error nothing is recorded.
    pub fn register(&mut self, desc: &TypeDescriptor) -> (r: Result<(), GenError>)
        ensures
            match to_js_spec(*desc) {
                Some(t) => r is Ok && final(self)@ == old(self)@.push(t),
                None => r is Err && final(self)@ == old(self)@,
            },
    {
        match derive_to_js(desc) {
            Ok(text) => {
                let ghost t = text@;
                self.entries.push(text);
                proof {
                    assert(final(self)@ =~= old(self)@.push(t));
                }
                Ok(())
            },
            Err(e) => Err(e),
        }
    }

    /// The artifact: every entry, in registration order.
    pub fn drain(self) -> (r: String)
        ensures
            r@ == concat_all(self@),
    {
        let ghost all = self@;
        let n = self.entries.len();
        let mut out = String::new();
        let mut i: usize = 0;
        while i < n
            invariant
                n == self.entries@.len(),
                all == views(self.entries@),
                i <= n,
                out@ == concat_all(all.take(i as int)),
            decreases n - i,
        {
            out.append(self.entries[i].as_str());
            proof {
                assert(all.take(i + 1).drop_last() =~= all.take(i as int));
                assert(out@ =~= concat_all(all.take(i + 1)));
            }
            i = i + 1;
        }
        proof {
            assert(all.take(n as int) =~= all);
        }
        out
    }
}

/// Registration order: draining after one more registration yields what the
/// earlier entries yield, followed by the new entry, so every entry appears
/// exactly once and in the order it was registered.
pub proof fn lemma_drain_appends(entries: Seq<Seq<char>>, t: Seq<char>)
    ensures
        concat_all(entries.push(t)) == concat_all(entries) + t,
{
    assert(entries.push(t).drop_last() =~= entries);
}

/// Registration completeness: the artifact of a ledger is made of its entries
/// one after another; the entry at position `i` starts right after the text
/// of the entries before it.
pub proof fn lemma_drain_layout(entries: Seq<Seq<char>>, i: int)
    requires
        0 <= i < entries.len(),
    ensures
        concat_all(entries.take(i + 1)) == concat_all(entries.take(i)) + entries[i],
        concat_all(entries) == concat_all(entries.take(i + 1)) + concat_all(entries.skip(i + 1)),
    decreases entries.len(),
{
    assert(entries.take(i + 1).drop_last() =~= entries.take(i));
    if i + 1 < entries.len() {
        let e = entries.drop_last();
        lemma_drain_layout(e, i);
        assert(e.take(i + 1) =~= entries.take(i + 1));
        assert(entries.skip(i + 1).drop_last() =~= e.skip(i + 1));
        assert(entries.skip(i + 1).last() == entries.last());
    } else {
        assert(entries.take(i + 1) =~= entries);
        assert(entries.skip(i + 1) =~= Seq::<Seq<char>>::empty());
    }
}

} // verus!
