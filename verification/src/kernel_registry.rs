//! The registry of verified kernels: which invariants each kernel version
//! supports and which proof modules back it.
use vstd::prelude::*;

use crate::error::{outcome_is, semantic_view, ErrorView, ValidationError};
use crate::text::str_eq;

verus! {

/// A registered kernel version.
#[derive(Debug, Clone)]
pub struct KernelDescriptor {
    pub name: &'static str,
    pub version: &'static str,
    pub invariants: Vec<&'static str>,
    pub proof_modules: Vec<&'static str>,
}

/// The key under which a descriptor is registered.
pub open spec fn key_of(d: KernelDescriptor) -> (Seq<char>, Seq<char>) {
    (d.name@, d.version@)
}

/// The registry contents: each key mapped to the descriptor registered last under it.
pub open spec fn registry_map(s: Seq<KernelDescriptor>) -> Map<(Seq<char>, Seq<char>), KernelDescriptor>
    decreases s.len(),
{
    if s.len() == 0 {
        Map::empty()
    } else {
        registry_map(s.drop_last()).insert(key_of(s.last()), s.last())
    }
}

/// No key occurs twice.
pub open spec fn distinct_keys(s: Seq<KernelDescriptor>) -> bool {
    forall|i: int, j: int| 0 <= i < j < s.len() ==> key_of(s[i]) != key_of(s[j])
}

/// Registered kernels, keyed by name and version.
#[derive(Debug)]
pub struct KernelRegistry {
    by_name_version: Vec<KernelDescriptor>,
}

impl View for KernelRegistry {
    type V = Map<(Seq<char>, Seq<char>), KernelDescriptor>;

    closed spec fn view(&self) -> Self::V {
        registry_map(self.by_name_version@)
    }
}

proof fn lemma_registry_map_dom(s: Seq<KernelDescriptor>, k: (Seq<char>, Seq<char>))
    requires
        distinct_keys(s),
    ensures
        registry_map(s).contains_key(k) <==> exists|i: int| 0 <= i < s.len() && key_of(s[i]) == k,
        forall|i: int| 0 <= i < s.len() && key_of(#[trigger] s[i]) == k ==> registry_map(s)[k] == s[i],
    decreases s.len(),
{
    if s.len() > 0 {
        let d = s.drop_last();
        lemma_registry_map_dom(d, k);
        let n = s.len() - 1;
        if key_of(s.last()) != k {
            if registry_map(s).contains_key(k) {
                let i = choose|i: int| 0 <= i < d.len() && key_of(d[i]) == k;
                assert(s[i] == d[i]);
            }
            if exists|i: int| 0 <= i < s.len() && key_of(s[i]) == k {
                let i = choose|i: int| 0 <= i < s.len() && key_of(s[i]) == k;
                assert(i != n);
                assert(d[i] == s[i]);
            }
            assert forall|i: int| 0 <= i < s.len() && key_of(#[trigger] s[i]) == k implies registry_map(s)[k] == s[i] by {
                assert(i != n);
                assert(s[i] == d[i]);
            }
        } else {
            assert(key_of(s[n]) == k);
            assert forall|i: int| 0 <= i < s.len() && key_of(#[trigger] s[i]) == k implies registry_map(s)[k] == s[i] by {
                if i != n {
                    assert(key_of(s[i]) != key_of(s[n]));
                }
            }
        }
    }
}

proof fn lemma_registry_map_update(s: Seq<KernelDescriptor>, i: int, x: KernelDescriptor)
    requires
        distinct_keys(s),
        0 <= i < s.len(),
        key_of(s[i]) == key_of(x),
    ensures
        registry_map(s.update(i, x)) == registry_map(s).insert(key_of(x), x),
        distinct_keys(s.update(i, x)),
    decreases s.len(),
{
    let u = s.update(i, x);
    assert(u.drop_last() =~= if i == s.len() - 1 { s.drop_last() } else { s.drop_last().update(i, x) });
    if i == s.len() - 1 {
        assert(registry_map(u) =~= registry_map(s).insert(key_of(x), x));
    } else {
        lemma_registry_map_update(s.drop_last(), i, x);
        assert(key_of(s.last()) != key_of(x));
        assert(registry_map(u) =~= registry_map(s).insert(key_of(x), x));
    }
}

impl Default for KernelRegistry {
    fn default() -> (r: Self)
        ensures
            r@ == Map::<(Seq<char>, Seq<char>), KernelDescriptor>::empty(),
    {
        KernelRegistry { by_name_version: Vec::new() }
    }
}

/// Whether `x` is one of `list`.
fn contains_str(list: &Vec<&'static str>, x: &str) -> (b: bool)
    ensures
        b == exists|i: int| 0 <= i < list@.len() && (#[trigger] list@[i])@ == x@,
{
    let mut i: usize = 0;
    while i < list.len()
        invariant
            i <= list.len(),
            forall|q: int| 0 <= q < i ==> (#[trigger] list@[q])@ != x@,
        decreases list.len() - i,
    {
        if str_eq(list[i], x) {
            return true;
        }
        i = i + 1;
    }
    false
}

/// One of `list` has the text `x`.
pub open spec fn lists(list: Seq<&'static str>, x: Seq<char>) -> bool {
    exists|i: int| 0 <= i < list.len() && (#[trigger] list[i])@ == x
}

/// The first invariant id, from position `k` on, that `d` does not support.
pub open spec fn first_unsupported(d: KernelDescriptor, ids: Seq<String>, k: int) -> Option<Seq<char>>
    decreases ids.len() - k,
{
    if k < 0 || k >= ids.len() {
        None
    } else if !lists(d.invariants@, ids[k]@) {
        Some(ids[k]@)
    } else {
        first_unsupported(d, ids, k + 1)
    }
}

/// What requiring, of the kernel registered as (`module`, `version`) in `reg`,
/// the proof module `proof` and the invariants `ids` gives.
pub open spec fn require_outcome(
    reg: Map<(Seq<char>, Seq<char>), KernelDescriptor>,
    module: Seq<char>,
    version: Seq<char>,
    proof: Seq<char>,
    ids: Seq<String>,
) -> Option<ErrorView> {
    if !reg.contains_key((module, version)) {
        Some(semantic_view(
            "TITAN_KERNEL_UNKNOWN"@,
            "kernel "@ + module + "@"@ + version + " is not registered"@,
        ))
    } else {
        let d = reg[(module, version)];
        if !lists(d.proof_modules@, proof) {
            Some(semantic_view(
                "TITAN_PROOF_MODULE_MISMATCH"@,
                "proof module "@ + proof + " not registered for kernel "@ + module + "@"@ + version,
            ))
        } else {
            match first_unsupported(d, ids, 0) {
                Some(id) => Some(semantic_view(
                    "TITAN_INVARIANT_UNSUPPORTED"@,
                    "invariant "@ + id + " not supported by kernel "@ + module + "@"@ + version,
                )),
                None => None,
            }
        }
    }
}

impl KernelRegistry {
    #[verifier::type_invariant]
    spec fn keys_distinct(self) -> bool {
        distinct_keys(self.by_name_version@)
    }

    fn find(&self, module: &str, version: &str) -> (r: Option<usize>)
        ensures
            match r {
                Some(i) => i < self.by_name_version@.len() && key_of(self.by_name_version@[i as int]) == (module@, version@),
                None => forall|i: int| 0 <= i < self.by_name_version@.len()
                    ==> key_of(#[trigger] self.by_name_version@[i]) != (module@, version@),
            },
    {
        let mut i: usize = 0;
        while i < self.by_name_version.len()
            invariant
                i <= self.by_name_version@.len(),
                forall|q: int| 0 <= q < i ==> key_of(#[trigger] self.by_name_version@[q]) != (module@, version@),
            decreases self.by_name_version.len() - i,
        {
            let d = &self.by_name_version[i];
            if str_eq(d.name, module) && str_eq(d.version, version) {
                return Some(i);
            }
            i = i + 1;
        }
        None
    }

    /// Registers `desc` under its name and version, replacing what was
    /// registered there.
    pub fn register(&mut self, desc: KernelDescriptor)
        ensures
            final(self)@ == old(self)@.insert(key_of(desc), desc),
    {
        proof { use_type_invariant(&*self); }
        let found = self.find(desc.name, desc.version);
        let mut v: Vec<KernelDescriptor> = Vec::new();
        std::mem::swap(&mut v, &mut self.by_name_version);
        let ghost s = v@;
        match found {
            Some(i) => {
                proof { lemma_registry_map_update(s, i as int, desc); }
                v.set(i, desc);
            },
            None => {
                v.push(desc);
                assert(v@.drop_last() =~= s);
                assert forall|i: int, j: int| 0 <= i < j < v@.len() implies key_of(v@[i]) != key_of(v@[j]) by {
                    if j < s.len() {
                        assert(v@[i] == s[i] && v@[j] == s[j]);
                    } else {
                        assert(v@[i] == s[i]);
                    }
                }
            },
        }
        self.by_name_version = v;
    }

    /// Requires that the kernel `kernel_module@kernel_version` is registered,
    /// is backed by `proof_module`, and supports every invariant of
    /// `invariant_ids`; the first failing condition is reported.
    pub fn require(
        &self,
        kernel_module: &str,
        kernel_version: &str,
        proof_module: &str,
        invariant_ids: &[String],
    ) -> (r: Result<(), ValidationError>)
        ensures
            outcome_is(r, require_outcome(self@, kernel_module@, kernel_version@, proof_module@, invariant_ids@)),
    {
        proof { use_type_invariant(self); }
        let found = self.find(kernel_module, kernel_version);
        proof { lemma_registry_map_dom(self.by_name_version@, (kernel_module@, kernel_version@)); }
        let i = match found {
            Some(i) => i,
            None => {
                let mut m = String::from_str("kernel ");
                m.append(kernel_module);
                m.append("@");
                m.append(kernel_version);
                m.append(" is not registered");
                return Err(ValidationError::semantic("TITAN_KERNEL_UNKNOWN", m));
            },
        };
        let desc = &self.by_name_version[i];
        assert(self@[(kernel_module@, kernel_version@)] == *desc);
        if !contains_str(&desc.proof_modules, proof_module) {
            let mut m = String::from_str("proof module ");
            m.append(proof_module);
            m.append(" not registered for kernel ");
            m.append(kernel_module);
            m.append("@");
            m.append(kernel_version);
            return Err(ValidationError::semantic("TITAN_PROOF_MODULE_MISMATCH", m));
        }
        let mut k: usize = 0;
        while k < invariant_ids.len()
            invariant
                k <= invariant_ids@.len(),
                self@.contains_key((kernel_module@, kernel_version@)),
                self@[(kernel_module@, kernel_version@)] == *desc,
                lists(desc.proof_modules@, proof_module@),
                first_unsupported(*desc, invariant_ids@, 0) == first_unsupported(*desc, invariant_ids@, k as int),
            decreases invariant_ids.len() - k,
        {
            let id = invariant_ids[k].as_str();
            if !contains_str(&desc.invariants, id) {
                let mut m = String::from_str("invariant ");
                m.append(id);
                m.append(" not supported by kernel ");
                m.append(kernel_module);
                m.append("@");
                m.append(kernel_version);
                return Err(ValidationError::semantic("TITAN_INVARIANT_UNSUPPORTED", m));
            }
            k = k + 1;
        }
        Ok(())
    }
}

/// Registering a kernel decides every later requirement on its name and
/// version by that descriptor alone, and leaves the requirements on every
/// other kernel as they were.
pub proof fn law_register_then_require(
    reg: Map<(Seq<char>, Seq<char>), KernelDescriptor>,
    desc: KernelDescriptor,
    module: Seq<char>,
    version: Seq<char>,
    proof: Seq<char>,
    ids: Seq<String>,
)
    ensures
        (module, version) == key_of(desc) ==> require_outcome(reg.insert(key_of(desc), desc), module, version, proof, ids)
            == require_outcome(Map::empty().insert(key_of(desc), desc), module, version, proof, ids),
        (module, version) != key_of(desc) ==> require_outcome(reg.insert(key_of(desc), desc), module, version, proof, ids)
            == require_outcome(reg, module, version, proof, ids),
{
}

proof fn lemma_first_unsupported(d: KernelDescriptor, ids: Seq<String>, k: int)
    requires
        0 <= k,
    ensures
        first_unsupported(d, ids, k) is None <==> forall|i: int| k <= i < ids.len() ==> lists(d.invariants@, (#[trigger] ids[i])@),
    decreases ids.len() - k,
{
    if k < ids.len() {
        lemma_first_unsupported(d, ids, k + 1);
    }
}

/// A requirement is met exactly when the kernel is registered under that name
/// and version, its descriptor lists the proof module, and it lists every
/// required invariant id, whatever its position among the ids.
pub proof fn law_require_passes_exactly_when_supported(
    reg: Map<(Seq<char>, Seq<char>), KernelDescriptor>,
    module: Seq<char>,
    version: Seq<char>,
    proof: Seq<char>,
    ids: Seq<String>,
)
    ensures
        require_outcome(reg, module, version, proof, ids) is None <==> {
            &&& reg.contains_key((module, version))
            &&& exists|j: int| 0 <= j < reg[(module, version)].proof_modules@.len()
                && (#[trigger] reg[(module, version)].proof_modules@[j])@ == proof
            &&& forall|i: int| 0 <= i < ids.len() ==> exists|j: int|
                0 <= j < reg[(module, version)].invariants@.len()
                    && (#[trigger] reg[(module, version)].invariants@[j])@ == (#[trigger] ids[i])@
        },
{
    if reg.contains_key((module, version)) {
        lemma_first_unsupported(reg[(module, version)], ids, 0);
    }
}

} // verus!
