//! The loader-tree builder: one instance per route-tree build pass.
//!
//! Each accepted call mints a fresh number, appends one import line, registers
//! one asset entry and returns one component tuple expression.  The builder
//! only accumulates: imports are append-only, asset keys are unique by
//! construction, and the counter never repeats a value within an instance.

use vstd::prelude::*;
use indexmap::IndexMap;
use crate::assets::{asset_entries, asset_map_insert, asset_map_new, has_key};
use crate::component::ComponentType;
use crate::escape::{
    code_points,
    lemma_literal_round_trip,
    literal_spec,
    string_literal,
    unescape_seq,
};
use crate::identifier::{
    asset_key,
    asset_key_spec,
    import_line_spec,
    lemma_asset_key_distinct,
    mangle,
    mangle_spec,
};
use vstd::string::StringExecFns;

verus! {

/// The component tuple expression returned for one call: a lazy accessor of
/// the import binding, paired with the escaped canonical path.
pub open spec fn component_tuple_spec(kind: ComponentType, i: nat, path: Seq<char>) -> Seq<char> {
    "[() => "@ + mangle_spec(kind.name_spec(), i) + ", "@ + literal_spec(path) + "]"@
}

/// Round trip for one generated component.  The import line of a call binds
/// the call's mangled identifier to exactly the synthetic key under which
/// the call registered its module handle, so substituting every synthetic
/// specifier from the registry resolves the lazy accessor to that very
/// module; and the path literal embedded in the tuple reads back as exactly
/// the module's canonical path.
pub proof fn lemma_component_round_trip(kind: ComponentType, i: nat, path: Seq<char>)
    ensures
        import_line_spec(kind, i) == "import * as "@ + mangle_spec(kind.name_spec(), i)
            + " from \""@ + asset_key_spec(i) + "\";\n"@,
        component_tuple_spec(kind, i, path) == "[() => "@ + mangle_spec(kind.name_spec(), i)
            + ", "@ + literal_spec(path) + "]"@,
        literal_spec(path).len() >= 2,
        unescape_seq(literal_spec(path).subrange(1, literal_spec(path).len() - 1)) == code_points(
            path,
        ),
{
    lemma_literal_round_trip(path);
}

/// Whether the key of entry `k` is the synthetic asset key of some number
/// below `bound`.
pub open spec fn key_minted(entries: Seq<(Seq<char>, u64)>, k: int, bound: nat) -> bool {
    exists|n: nat| n < bound && entries[k].0 == #[trigger] asset_key_spec(n)
}

/// A key minted below one bound is minted below any larger bound.
pub proof fn lemma_key_minted_weaken(entries: Seq<(Seq<char>, u64)>, k: int, b1: nat, b2: nat)
    requires
        key_minted(entries, k, b1),
        b1 <= b2,
    ensures
        key_minted(entries, k, b2),
{
    let n = choose|n: nat| n < b1 && entries[k].0 == #[trigger] asset_key_spec(n);
    assert(n < b2 && entries[k].0 == asset_key_spec(n));
}

/// For any run of allocations on one builder driven through its interface,
/// the values handed out are exactly `0, 1, ..., N-1` in call order: the
/// k-th allocation returned `k`, and no value repeats.
pub proof fn lemma_allocation_values(b: BaseLoaderTreeBuilder)
    requires
        b.wf(),
    ensures
        b.minted_spec().len() == b.counter_spec(),
        forall|k: int| 0 <= k < b.minted_spec().len() ==> #[trigger] b.minted_spec()[k] == k,
        forall|k1: int, k2: int|
            0 <= k1 < k2 < b.minted_spec().len() ==> #[trigger] b.minted_spec()[k1]
                != #[trigger] b.minted_spec()[k2],
{
}

/// Per-build-pass state: the asset registry, the uniqueness counter and the
/// accumulated import lines.
pub struct BaseLoaderTreeBuilder {
    pub inner_assets: IndexMap<String, u64>,
    counter: usize,
    pub imports: Vec<String>,
    minted: Ghost<Seq<nat>>,
}

impl BaseLoaderTreeBuilder {
    /// The counter value: the number the next allocation returns.
    pub closed spec fn counter_spec(self) -> nat {
        self.counter as nat
    }

    /// The accumulated import lines, in call order.
    pub closed spec fn imports_spec(self) -> Seq<String> {
        self.imports@
    }

    /// The registered asset entries, in insertion order.
    pub closed spec fn assets_spec(self) -> Seq<(Seq<char>, u64)> {
        asset_entries(self.inner_assets)
    }

    /// The numbers this instance has handed out, in call order.
    pub closed spec fn minted_spec(self) -> Seq<nat> {
        self.minted@
    }

    /// Well-formedness: the minted numbers are exactly `0..counter-1` in
    /// call order, every registered key is the synthetic key of a number
    /// already minted, and no two entries share a key.
    pub open spec fn wf(self) -> bool {
        &&& self.minted_spec() == Seq::new(self.counter_spec(), |k: int| k as nat)
        &&& forall|k: int|
            0 <= k < self.assets_spec().len() ==> #[trigger] key_minted(
                self.assets_spec(),
                k,
                self.counter_spec(),
            )
        &&& forall|k1: int, k2: int|
            0 <= k1 < k2 < self.assets_spec().len() ==> #[trigger] self.assets_spec()[k1].0
                != #[trigger] self.assets_spec()[k2].0
    }

    /// A fresh builder: counter at zero, no imports, no assets.
    pub fn new() -> (b: Self)
        ensures
            b.wf(),
            b.counter_spec() == 0,
            b.assets_spec() == Seq::<(Seq<char>, u64)>::empty(),
            b.imports_spec() == Seq::<String>::empty(),
    {
        let b = BaseLoaderTreeBuilder {
            inner_assets: asset_map_new(),
            counter: 0,
            imports: Vec::new(),
            minted: Ghost(Seq::empty()),
        };
        proof {
            assert(b.minted_spec() =~= Seq::new(b.counter_spec(), |k: int| k as nat));
        }
        b
    }

    /// The number the next allocation will return; equivalently, how many
    /// numbers this instance has minted.
    pub fn counter(&self) -> (c: usize)
        ensures
            c as nat == self.counter_spec(),
    {
        self.counter
    }

    /// Returns the current counter value and advances it by exactly one.
    ///
    /// Values are minted in order `0, 1, 2, ...` and never reused within
    /// this instance.
    pub fn unique_number(&mut self) -> (i: usize)
        requires
            old(self).counter_spec() < usize::MAX as nat,
        ensures
            i as nat == old(self).counter_spec(),
            final(self).counter_spec() == old(self).counter_spec() + 1,
            final(self).imports_spec() == old(self).imports_spec(),
            final(self).assets_spec() == old(self).assets_spec(),
            final(self).minted_spec() == old(self).minted_spec().push(old(self).counter_spec()),
            old(self).wf() ==> final(self).wf(),
    {
        let i = self.counter;
        self.counter = self.counter + 1;
        proof {
            self.minted@ = self.minted@.push(i as nat);
            if old(self).wf() {
                assert(self.minted_spec() =~= Seq::new(self.counter_spec(), |k: int| k as nat));
                assert(self.assets_spec() == old(self).assets_spec());
                assert forall|k: int| 0 <= k < self.assets_spec().len() implies #[trigger]
                key_minted(self.assets_spec(), k, self.counter_spec()) by {
                    assert(key_minted(old(self).assets_spec(), k, old(self).counter_spec()));
                    lemma_key_minted_weaken(
                        old(self).assets_spec(),
                        k,
                        old(self).counter_spec(),
                        self.counter_spec(),
                    );
                }
            }
        }
        i
    }

    /// Generates the code for one component: mints a number, appends the
    /// import line binding the mangled identifier to the synthetic
    /// specifier, registers the already-resolved module handle under that
    /// specifier, and returns the component tuple expression embedding the
    /// module's canonical path.
    ///
    /// The caller resolves the path to a module handle and its canonical
    /// path first; a failed resolution therefore leaves the builder
    /// untouched.
    pub fn create_component_tuple_code(
        &mut self,
        component_type: ComponentType,
        module: u64,
        canonical_path: &str,
    ) -> (code: String)
        requires
            old(self).wf(),
            old(self).counter_spec() < usize::MAX as nat,
        ensures
            final(self).wf(),
            final(self).counter_spec() == old(self).counter_spec() + 1,
            final(self).imports_spec().len() == old(self).imports_spec().len() + 1,
            final(self).imports_spec().subrange(0, old(self).imports_spec().len() as int)
                == old(self).imports_spec(),
            final(self).imports_spec().last()@ == import_line_spec(
                component_type,
                old(self).counter_spec(),
            ),
            final(self).assets_spec() == old(self).assets_spec().push(
                (asset_key_spec(old(self).counter_spec()), module),
            ),
            final(self).minted_spec() == old(self).minted_spec().push(old(self).counter_spec()),
            code@ == component_tuple_spec(
                component_type,
                old(self).counter_spec(),
                canonical_path@,
            ),
    {
        let ghost entries0 = self.assets_spec();
        let name = component_type.name();
        let i = self.unique_number();
        let identifier = mangle(name, i);

        let mut line: String = "import * as ".to_owned();
        line.append(identifier.as_str());
        line.append(" from \"");
        let key = asset_key(i);
        line.append(key.as_str());
        line.append("\";\n");
        proof {
            assert(line@ =~= import_line_spec(component_type, i as nat));
        }
        self.imports.push(line);

        proof {
            assert(!has_key(entries0, asset_key_spec(i as nat))) by {
                assert forall|k: int| 0 <= k < entries0.len() implies entries0[k].0
                    != asset_key_spec(i as nat) by {
                    assert(key_minted(entries0, k, i as nat));
                    let n = choose|n: nat|
                        n < i as nat && entries0[k].0 == #[trigger] asset_key_spec(n);
                    lemma_asset_key_distinct(n, i as nat);
                }
            }
        }
        let prev = asset_map_insert(&mut self.inner_assets, key, module);

        proof {
            let entries1 = self.assets_spec();
            assert(entries1 == entries0.push((asset_key_spec(i as nat), module)));
            assert forall|k: int| 0 <= k < entries1.len() implies #[trigger] key_minted(
                entries1,
                k,
                self.counter_spec(),
            ) by {
                if k < entries0.len() {
                    assert(key_minted(entries0, k, i as nat));
                    let n = choose|n: nat|
                        n < i as nat && entries0[k].0 == #[trigger] asset_key_spec(n);
                    assert(entries1[k].0 == asset_key_spec(n) && n < self.counter_spec());
                } else {
                    assert(entries1[k].0 == asset_key_spec(i as nat) && (i as nat)
                        < self.counter_spec());
                }
            }
            assert forall|k1: int, k2: int| 0 <= k1 < k2 < entries1.len() implies #[trigger]
            entries1[k1].0 != #[trigger] entries1[k2].0 by {
                if k2 == entries0.len() {
                    assert(key_minted(entries0, k1, i as nat));
                    let n = choose|n: nat|
                        n < i as nat && entries0[k1].0 == #[trigger] asset_key_spec(n);
                    lemma_asset_key_distinct(n, i as nat);
                }
            }
            assert(final(self).imports_spec().subrange(0, old(self).imports_spec().len() as int)
                =~= old(self).imports_spec());
        }

        let mut code: String = "[() => ".to_owned();
        code.append(identifier.as_str());
        code.append(", ");
        let literal = string_literal(canonical_path);
        code.append(literal.as_str());
        code.append("]");
        proof {
            assert(code@ =~= component_tuple_spec(component_type, i as nat, canonical_path@));
        }
        code
    }
}

} // verus!
