//! Foreign-function contracts: ABIs, callback pairs and their closed policies.
use vstd::prelude::*;
use vstd::string::*;

use crate::effects::{Effect, EffectSummary};
use crate::ids::{SourceSpan, SymbolId};
use crate::order::{sort_unique_strings, string_views, strictly_ascending_text};
use crate::text::str_eq;

verus! {

#[derive(Clone, Copy, Debug, PartialEq, Eq, Structural, Hash, PartialOrd, Ord)]
pub enum ForeignAbi {
    C,
    System,
    CUnwind,
}

#[derive(Clone, Copy, Debug, PartialEq, Eq, Structural, Hash, PartialOrd, Ord)]
pub enum FfiCallbackThreadPolicy {
    CallingThread,
    AttachedThread,
}

#[derive(Clone, Copy, Debug, PartialEq, Eq, Structural, Hash, PartialOrd, Ord)]
pub enum FfiCallbackLifetime {
    CallScoped,
    Registered,
}

#[derive(Clone, Copy, Debug, PartialEq, Eq, Structural, Hash, PartialOrd, Ord)]
pub enum FfiCallbackAbi {
    C,
    System,
}

#[derive(Clone, Copy, Debug, PartialEq, Eq, Structural, Hash, PartialOrd, Ord)]
pub enum FfiCallbackConcurrency {
    Serialized,
}

#[derive(Clone, Copy, Debug, PartialEq, Eq, Structural, Hash, PartialOrd, Ord)]
pub enum FfiCallbackReentrancy {
    Forbidden,
}

#[derive(Clone, Copy, Debug, PartialEq, Eq, Structural, Hash, PartialOrd, Ord)]
pub enum FfiCallbackPanicPolicy {
    AbortProcess,
}

/// A lower-case hexadecimal digit.
pub open spec fn is_lower_hex(c: char) -> bool {
    ('0' <= c && c <= '9') || ('a' <= c && c <= 'f')
}

/// A signature fingerprint is exactly 64 lower-case hexadecimal digits.
pub open spec fn fingerprint_well_formed(fingerprint: Seq<char>) -> bool {
    &&& fingerprint.len() == 64
    &&& forall|i: int| 0 <= i < fingerprint.len() ==> is_lower_hex(#[trigger] fingerprint[i])
}

/// Call-scoped callbacks run on the calling thread; registered ones on an attached thread.
pub open spec fn lifetime_matches_thread(
    lifetime: FfiCallbackLifetime,
    thread: FfiCallbackThreadPolicy,
) -> bool {
    (lifetime == FfiCallbackLifetime::CallScoped && thread == FfiCallbackThreadPolicy::CallingThread)
        || (lifetime == FfiCallbackLifetime::Registered && thread
        == FfiCallbackThreadPolicy::AttachedThread)
}

fn fingerprint_is_well_formed(fingerprint: &str) -> (r: bool)
    ensures
        r == fingerprint_well_formed(fingerprint@),
{
    let n = fingerprint.unicode_len();
    if n != 64 {
        return false;
    }
    let mut i: usize = 0;
    while i < n
        invariant
            n == fingerprint@.len(),
            i <= n,
            forall|k: int| 0 <= k < i ==> is_lower_hex(#[trigger] fingerprint@[k]),
        decreases n - i,
    {
        let c = fingerprint.get_char(i);
        if !(('0' <= c && c <= '9') || ('a' <= c && c <= 'f')) {
            return false;
        }
        i = i + 1;
    }
    true
}

fn lifetime_thread_ok(lifetime: FfiCallbackLifetime, thread: FfiCallbackThreadPolicy) -> (r: bool)
    ensures
        r == lifetime_matches_thread(lifetime, thread),
{
    match (lifetime, thread) {
        (FfiCallbackLifetime::CallScoped, FfiCallbackThreadPolicy::CallingThread) => true,
        (FfiCallbackLifetime::Registered, FfiCallbackThreadPolicy::AttachedThread) => true,
        _ => false,
    }
}

/// The generated contract shared by every use of one callback pair: the facts
/// that select one backend thunk.
#[derive(Debug, PartialEq, Eq, Hash, PartialOrd, Ord)]
pub struct FfiCallbackBindingContract {
    lifetime: FfiCallbackLifetime,
    callback_abi: FfiCallbackAbi,
    signature_fingerprint: String,
    thread: FfiCallbackThreadPolicy,
    concurrency: FfiCallbackConcurrency,
    reentrancy: FfiCallbackReentrancy,
    panic_policy: FfiCallbackPanicPolicy,
}

/// The abstract content of a binding contract.
pub struct BindingContractView {
    pub lifetime: FfiCallbackLifetime,
    pub callback_abi: FfiCallbackAbi,
    pub signature_fingerprint: Seq<char>,
    pub thread: FfiCallbackThreadPolicy,
    pub concurrency: FfiCallbackConcurrency,
    pub reentrancy: FfiCallbackReentrancy,
    pub panic_policy: FfiCallbackPanicPolicy,
}

impl FfiCallbackBindingContract {
    pub closed spec fn view(&self) -> BindingContractView {
        BindingContractView {
            lifetime: self.lifetime,
            callback_abi: self.callback_abi,
            signature_fingerprint: self.signature_fingerprint@,
            thread: self.thread,
            concurrency: self.concurrency,
            reentrancy: self.reentrancy,
            panic_policy: self.panic_policy,
        }
    }

    pub fn lifetime(&self) -> (r: FfiCallbackLifetime)
        ensures
            r == self@.lifetime,
    {
        self.lifetime
    }

    pub fn callback_abi(&self) -> (r: FfiCallbackAbi)
        ensures
            r == self@.callback_abi,
    {
        self.callback_abi
    }

    pub fn signature_fingerprint(&self) -> (r: &str)
        ensures
            r@ == self@.signature_fingerprint,
    {
        self.signature_fingerprint.as_str()
    }

    pub fn thread(&self) -> (r: FfiCallbackThreadPolicy)
        ensures
            r == self@.thread,
    {
        self.thread
    }

    pub fn concurrency(&self) -> (r: FfiCallbackConcurrency)
        ensures
            r == self@.concurrency,
    {
        self.concurrency
    }

    pub fn reentrancy(&self) -> (r: FfiCallbackReentrancy)
        ensures
            r == self@.reentrancy,
    {
        self.reentrancy
    }

    pub fn panic_policy(&self) -> (r: FfiCallbackPanicPolicy)
        ensures
            r == self@.panic_policy,
    {
        self.panic_policy
    }

    /// A well-formed fingerprint and a thread policy that fits the lifetime.
    pub fn has_valid_shape(&self) -> (r: bool)
        ensures
            r == (fingerprint_well_formed(self@.signature_fingerprint) && lifetime_matches_thread(
                self@.lifetime,
                self@.thread,
            )),
    {
        fingerprint_is_well_formed(self.signature_fingerprint.as_str()) && lifetime_thread_ok(
            self.lifetime,
            self.thread,
        )
    }
}

/// One callback parameter of a foreign function and the context parameter
/// handed back to it.
#[derive(Debug, PartialEq, Eq, Hash, PartialOrd, Ord)]
pub struct FfiCallbackPairContract {
    callback_parameter_index: u16,
    context_parameter_index: u16,
    lifetime: FfiCallbackLifetime,
    callback_abi: FfiCallbackAbi,
    signature_fingerprint: String,
    thread: FfiCallbackThreadPolicy,
    concurrency: FfiCallbackConcurrency,
    reentrancy: FfiCallbackReentrancy,
    panic_policy: FfiCallbackPanicPolicy,
}

/// The abstract content of a callback pair.
pub struct PairContractView {
    pub callback_parameter_index: u16,
    pub context_parameter_index: u16,
    pub binding: BindingContractView,
}

impl FfiCallbackPairContract {
    pub closed spec fn view(&self) -> PairContractView {
        PairContractView {
            callback_parameter_index: self.callback_parameter_index,
            context_parameter_index: self.context_parameter_index,
            binding: BindingContractView {
                lifetime: self.lifetime,
                callback_abi: self.callback_abi,
                signature_fingerprint: self.signature_fingerprint@,
                thread: self.thread,
                concurrency: self.concurrency,
                reentrancy: self.reentrancy,
                panic_policy: self.panic_policy,
            },
        }
    }

    /// Whether the pair's shape is valid: distinct indices and a valid binding.
    pub open spec fn valid_shape(&self) -> bool {
        &&& self@.callback_parameter_index != self@.context_parameter_index
        &&& fingerprint_well_formed(self@.binding.signature_fingerprint)
        &&& lifetime_matches_thread(self@.binding.lifetime, self@.binding.thread)
    }

    /// A pair with the only accepted concurrency, reentrancy and panic policies.
    pub fn new(
        callback_parameter_index: u16,
        context_parameter_index: u16,
        lifetime: FfiCallbackLifetime,
        callback_abi: FfiCallbackAbi,
        signature_fingerprint: String,
        thread: FfiCallbackThreadPolicy,
    ) -> (r: Self)
        ensures
            r@ == (PairContractView {
                callback_parameter_index,
                context_parameter_index,
                binding: BindingContractView {
                    lifetime,
                    callback_abi,
                    signature_fingerprint: signature_fingerprint@,
                    thread,
                    concurrency: FfiCallbackConcurrency::Serialized,
                    reentrancy: FfiCallbackReentrancy::Forbidden,
                    panic_policy: FfiCallbackPanicPolicy::AbortProcess,
                },
            }),
    {
        FfiCallbackPairContract {
            callback_parameter_index,
            context_parameter_index,
            lifetime,
            callback_abi,
            signature_fingerprint,
            thread,
            concurrency: FfiCallbackConcurrency::Serialized,
            reentrancy: FfiCallbackReentrancy::Forbidden,
            panic_policy: FfiCallbackPanicPolicy::AbortProcess,
        }
    }

    pub fn callback_parameter_index(&self) -> (r: u16)
        ensures
            r == self@.callback_parameter_index,
    {
        self.callback_parameter_index
    }

    pub fn context_parameter_index(&self) -> (r: u16)
        ensures
            r == self@.context_parameter_index,
    {
        self.context_parameter_index
    }

    pub fn lifetime(&self) -> (r: FfiCallbackLifetime)
        ensures
            r == self@.binding.lifetime,
    {
        self.lifetime
    }

    pub fn callback_abi(&self) -> (r: FfiCallbackAbi)
        ensures
            r == self@.binding.callback_abi,
    {
        self.callback_abi
    }

    pub fn signature_fingerprint(&self) -> (r: &str)
        ensures
            r@ == self@.binding.signature_fingerprint,
    {
        self.signature_fingerprint.as_str()
    }

    pub fn thread(&self) -> (r: FfiCallbackThreadPolicy)
        ensures
            r == self@.binding.thread,
    {
        self.thread
    }

    pub fn concurrency(&self) -> (r: FfiCallbackConcurrency)
        ensures
            r == self@.binding.concurrency,
    {
        self.concurrency
    }

    pub fn reentrancy(&self) -> (r: FfiCallbackReentrancy)
        ensures
            r == self@.binding.reentrancy,
    {
        self.reentrancy
    }

    pub fn panic_policy(&self) -> (r: FfiCallbackPanicPolicy)
        ensures
            r == self@.binding.panic_policy,
    {
        self.panic_policy
    }

    /// The facts of the pair that every use of its scope must agree on.
    pub fn binding_contract(&self) -> (r: FfiCallbackBindingContract)
        ensures
            r@ == self@.binding,
    {
        FfiCallbackBindingContract {
            lifetime: self.lifetime,
            callback_abi: self.callback_abi,
            signature_fingerprint: self.signature_fingerprint.clone(),
            thread: self.thread,
            concurrency: self.concurrency,
            reentrancy: self.reentrancy,
            panic_policy: self.panic_policy,
        }
    }

    /// Distinct callback and context indices, and a valid binding contract.
    pub fn has_valid_shape(&self) -> (r: bool)
        ensures
            r == self.valid_shape(),
    {
        self.callback_parameter_index != self.context_parameter_index
            && self.binding_contract().has_valid_shape()
    }
}

/// The effects every foreign call has, plus blocking unless declared
/// nonblocking, plus unwinding for the unwinding C ABI.
pub open spec fn expected_foreign_effects(abi: ForeignAbi, nonblocking: bool) -> Set<Effect> {
    let base = Set::empty().insert(Effect::ForeignFunction).insert(Effect::UnsafeMemory).insert(
        Effect::GcSafePoint,
    );
    let blocking = if nonblocking {
        base
    } else {
        base.insert(Effect::Blocks)
    };
    if abi == ForeignAbi::CUnwind {
        blocking.insert(Effect::MayUnwind)
    } else {
        blocking
    }
}

/// The first position in `s` whose callback index exceeds `key`.
pub open spec fn callback_insert_position(s: Seq<PairContractView>, key: u16) -> nat
    decreases s.len(),
{
    if s.len() == 0 {
        0
    } else if s[0].callback_parameter_index > key {
        0
    } else {
        1 + callback_insert_position(s.drop_first(), key)
    }
}

/// The pairs stably ordered by callback parameter index: each pair, in input
/// order, goes after every earlier pair whose index is not greater.
pub open spec fn pairs_sorted_by_callback(s: Seq<PairContractView>) -> Seq<PairContractView>
    decreases s.len(),
{
    if s.len() == 0 {
        s
    } else {
        let t = pairs_sorted_by_callback(s.drop_last());
        t.insert(callback_insert_position(t, s.last().callback_parameter_index) as int, s.last())
    }
}

proof fn lemma_callback_insert_position(s: Seq<PairContractView>, key: u16, p: int)
    requires
        0 <= p <= s.len(),
        forall|k: int| 0 <= k < p ==> (#[trigger] s[k]).callback_parameter_index <= key,
        p < s.len() ==> s[p].callback_parameter_index > key,
    ensures
        callback_insert_position(s, key) == p,
    decreases s.len(),
{
    if s.len() > 0 && p > 0 {
        assert forall|k: int| 0 <= k < p - 1 implies (#[trigger] s.drop_first()[k]).callback_parameter_index <= key by {
            assert(s.drop_first()[k] == s[k + 1]);
        }
        if p - 1 < s.len() - 1 {
            assert(s.drop_first()[p - 1] == s[p]);
        }
        lemma_callback_insert_position(s.drop_first(), key, p - 1);
    }
}

/// The views of a list of callback pairs.
pub open spec fn pair_views(v: Seq<FfiCallbackPairContract>) -> Seq<PairContractView> {
    v.map_values(|p: FfiCallbackPairContract| p@)
}

/// Pair `i` is acceptable given the pairs before it: valid shape, a callback
/// index above the previous one, a blocking function, and no index shared
/// with any earlier pair or between its own callback and context.
pub open spec fn callback_pair_acceptable(s: Seq<PairContractView>, i: int, nonblocking: bool) -> bool {
    let p = s[i];
    &&& p.callback_parameter_index != p.context_parameter_index
    &&& fingerprint_well_formed(p.binding.signature_fingerprint)
    &&& lifetime_matches_thread(p.binding.lifetime, p.binding.thread)
    &&& (i > 0 ==> s[i - 1].callback_parameter_index < p.callback_parameter_index)
    &&& !nonblocking
    &&& forall|j: int|
        0 <= j < i ==> {
            &&& (#[trigger] s[j]).callback_parameter_index != p.callback_parameter_index
            &&& s[j].context_parameter_index != p.context_parameter_index
            &&& s[j].callback_parameter_index != p.context_parameter_index
            &&& s[j].context_parameter_index != p.callback_parameter_index
        }
}

/// The abstract content of a foreign function declaration.
pub struct ForeignFunctionView {
    pub symbol: SymbolId,
    pub external_symbol: Seq<char>,
    pub abi: ForeignAbi,
    pub link_aliases: Seq<Seq<char>>,
    pub nonblocking: bool,
    pub effects: Set<Effect>,
    pub callback_pairs: Seq<PairContractView>,
    pub span: SourceSpan,
}

/// A declared foreign function, its link names, effects and callback pairs.
#[derive(Debug)]
pub struct ForeignFunctionDeclaration {
    symbol: SymbolId,
    external_symbol: String,
    abi: ForeignAbi,
    link_aliases: Vec<String>,
    nonblocking: bool,
    effects: EffectSummary,
    callback_pairs: Vec<FfiCallbackPairContract>,
    span: SourceSpan,
}

impl ForeignFunctionDeclaration {
    pub closed spec fn view(&self) -> ForeignFunctionView {
        ForeignFunctionView {
            symbol: self.symbol,
            external_symbol: self.external_symbol@,
            abi: self.abi,
            link_aliases: string_views(self.link_aliases@),
            nonblocking: self.nonblocking,
            effects: self.effects@,
            callback_pairs: pair_views(self.callback_pairs@),
            span: self.span,
        }
    }

    /// A declaration whose link aliases are sorted and deduplicated, whose
    /// effects are those every such foreign call has, and with no callback pairs.
    pub fn new(
        symbol: SymbolId,
        external_symbol: String,
        abi: ForeignAbi,
        link_aliases: Vec<String>,
        nonblocking: bool,
        span: SourceSpan,
    ) -> (r: Self)
        ensures
            r@.symbol == symbol,
            r@.external_symbol == external_symbol@,
            r@.abi == abi,
            strictly_ascending_text(r@.link_aliases),
            forall|t: Seq<char>|
                r@.link_aliases.contains(t) <==> string_views(link_aliases@).contains(t),
            r@.nonblocking == nonblocking,
            r@.effects == expected_foreign_effects(abi, nonblocking),
            r@.callback_pairs == Seq::<PairContractView>::empty(),
            r@.span == span,
    {
        let link_aliases = sort_unique_strings(link_aliases);
        let effects = Self::expected_effects(abi, nonblocking);
        let r = ForeignFunctionDeclaration {
            symbol,
            external_symbol,
            abi,
            link_aliases,
            nonblocking,
            effects,
            callback_pairs: Vec::new(),
            span,
        };
        assert(pair_views(r.callback_pairs@) =~= Seq::<PairContractView>::empty());
        r
    }

    /// The declaration with `callback_pairs`, stably ordered by callback index.
    pub fn with_callback_pairs(self, callback_pairs: Vec<FfiCallbackPairContract>) -> (r: Self)
        ensures
            r@ == (ForeignFunctionView {
                callback_pairs: pairs_sorted_by_callback(pair_views(callback_pairs@)),
                ..self@
            }),
    {
        let mut sorted: Vec<FfiCallbackPairContract> = Vec::new();
        let mut pending = callback_pairs;
        let ghost input = pair_views(pending@);
        let mut taken: usize = 0;
        let n = pending.len();
        assert(pair_views(sorted@) =~= pairs_sorted_by_callback(input.take(0)));
        while taken < n
            invariant
                n == input.len(),
                taken <= n,
                pending@.len() == n - taken,
                forall|k: int| 0 <= k < pending@.len() ==> #[trigger] pending@[k]@ == input[taken + k],
                pair_views(sorted@) == pairs_sorted_by_callback(input.take(taken as int)),
            decreases n - taken,
        {
            let pair = pending.remove(0);
            assert(pair@ == input[taken as int]);
            let key = pair.callback_parameter_index();
            let ghost before = pair_views(sorted@);
            let mut pos: usize = 0;
            while pos < sorted.len()
                invariant
                    pos <= sorted@.len(),
                    before == pair_views(sorted@),
                    forall|k: int| 0 <= k < pos ==> (#[trigger] before[k]).callback_parameter_index <= key,
                ensures
                    pos <= sorted@.len(),
                    forall|k: int| 0 <= k < pos ==> (#[trigger] before[k]).callback_parameter_index <= key,
                    pos < sorted@.len() ==> before[pos as int].callback_parameter_index > key,
                decreases sorted.len() - pos,
            {
                assert(before[pos as int] == sorted@[pos as int]@);
                if sorted[pos].callback_parameter_index() > key {
                    break;
                }
                pos = pos + 1;
            }
            proof {
                lemma_callback_insert_position(before, key, pos as int);
                let next = input.take(taken + 1);
                assert(next.drop_last() =~= input.take(taken as int));
                assert(next.last() == input[taken as int]);
            }
            sorted.insert(pos, pair);
            proof {
                assert(pair_views(sorted@) =~= before.insert(pos as int, input[taken as int]));
            }
            taken = taken + 1;
        }
        proof {
            assert(input.take(n as int) =~= input);
        }
        ForeignFunctionDeclaration { callback_pairs: sorted, ..self }
    }

    fn expected_effects(abi: ForeignAbi, nonblocking: bool) -> (r: EffectSummary)
        ensures
            r@ == expected_foreign_effects(abi, nonblocking),
            r.mask() < 8192,
    {
        let mut effects = EffectSummary::empty().with(Effect::ForeignFunction).with(
            Effect::UnsafeMemory,
        ).with(Effect::GcSafePoint);
        if !nonblocking {
            effects = effects.with(Effect::Blocks);
        }
        if abi == ForeignAbi::CUnwind {
            effects = effects.with(Effect::MayUnwind);
        }
        let _ = effects.bits();
        effects
    }

    pub fn symbol(&self) -> (r: SymbolId)
        ensures
            r == self@.symbol,
    {
        self.symbol
    }

    pub fn external_symbol(&self) -> (r: &str)
        ensures
            r@ == self@.external_symbol,
    {
        self.external_symbol.as_str()
    }

    pub fn abi(&self) -> (r: ForeignAbi)
        ensures
            r == self@.abi,
    {
        self.abi
    }

    pub fn link_aliases(&self) -> (r: &[String])
        ensures
            string_views(r@) == self@.link_aliases,
    {
        self.link_aliases.as_slice()
    }

    pub fn is_nonblocking(&self) -> (r: bool)
        ensures
            r == self@.nonblocking,
    {
        self.nonblocking
    }

    /// Whether the recorded effects are exactly the ones the ABI and blocking
    /// mode call for.
    pub fn has_valid_effects(&self) -> (r: bool)
        ensures
            r == (self@.effects == expected_foreign_effects(self@.abi, self@.nonblocking)),
    {
        let expected = Self::expected_effects(self.abi, self.nonblocking);
        let actual = self.effects.bits();
        let wanted = expected.bits();
        proof {
            if self.effects@ == expected@ {
                self.effects.lemma_view_determines(expected);
            }
            if actual == wanted {
                self.effects.lemma_mask_determines(expected);
            }
        }
        actual == wanted
    }

    pub fn effects(&self) -> (r: EffectSummary)
        ensures
            r@ == self@.effects,
    {
        self.effects
    }

    pub fn callback_pairs(&self) -> (r: &[FfiCallbackPairContract])
        ensures
            pair_views(r@) == self@.callback_pairs,
    {
        self.callback_pairs.as_slice()
    }

    /// Whether every callback pair is acceptable given the pairs before it.
    pub fn has_valid_callback_pairs(&self) -> (r: bool)
        ensures
            r == forall|i: int|
                0 <= i < self@.callback_pairs.len() ==> callback_pair_acceptable(
                    self@.callback_pairs,
                    i,
                    self@.nonblocking,
                ),
    {
        let ghost s = pair_views(self.callback_pairs@);
        assert(s == self@.callback_pairs);
        let n = self.callback_pairs.len();
        let mut i: usize = 0;
        while i < n
            invariant
                n == s.len(),
                s == pair_views(self.callback_pairs@),
                i <= n,
                forall|k: int| 0 <= k < i ==> callback_pair_acceptable(s, k, self.nonblocking),
            decreases n - i,
        {
            let pair = &self.callback_pairs[i];
            assert(pair@ == s[i as int]);
            let callback = pair.callback_parameter_index();
            let context = pair.context_parameter_index();
            if !pair.has_valid_shape() || self.nonblocking {
                assert(!callback_pair_acceptable(self@.callback_pairs, i as int, self@.nonblocking));
                return false;
            }
            if i > 0 {
                assert(self.callback_pairs@[i - 1]@ == s[i - 1]);
                if self.callback_pairs[i - 1].callback_parameter_index() >= callback {
                    assert(!callback_pair_acceptable(self@.callback_pairs, i as int, self@.nonblocking));
                    return false;
                }
            }
            let mut j: usize = 0;
            while j < i
                invariant
                    n == s.len(),
                    s == pair_views(self.callback_pairs@),
                    j <= i < n,
                    callback == s[i as int].callback_parameter_index,
                    context == s[i as int].context_parameter_index,
                    forall|k: int|
                        0 <= k < j ==> {
                            &&& (#[trigger] s[k]).callback_parameter_index != callback
                            &&& s[k].context_parameter_index != context
                            &&& s[k].callback_parameter_index != context
                            &&& s[k].context_parameter_index != callback
                        },
                decreases i - j,
            {
                let other = &self.callback_pairs[j];
                assert(other@ == s[j as int]);
                let c = other.callback_parameter_index();
                let x = other.context_parameter_index();
                if c == callback || x == context || c == context || x == callback {
                    assert(!callback_pair_acceptable(self@.callback_pairs, i as int, self@.nonblocking)) by {
                        assert(s[j as int] == other@);
                    }
                    return false;
                }
                j = j + 1;
            }
            i = i + 1;
        }
        true
    }

    pub fn span(&self) -> (r: SourceSpan)
        ensures
            r == self@.span,
    {
        self.span
    }
}

/// Whether a call path names one of the pointer operations of `Ffi`:
/// `fromPointer`, `isPresent` and `require` of the optional pointers, and
/// `readOnly` of `Pointer`.
pub open spec fn is_ffi_pointer_path(path: Seq<Seq<char>>) -> bool {
    &&& path.len() == 3
    &&& path[0] == "Ffi"@
    &&& {
        ||| (path[1] == "OptionalPointer"@ || path[1] == "OptionalReadOnlyPointer"@) && (path[2] == "fromPointer"@
            || path[2] == "isPresent"@ || path[2] == "require"@)
        ||| path[1] == "Pointer"@ && path[2] == "readOnly"@
    }
}

/// Whether a call path names one of the operations of `Ffi.Unsafe`.
pub open spec fn is_ffi_unsafe_path(path: Seq<Seq<char>>) -> bool {
    &&& path.len() == 3
    &&& path[0] == "Ffi"@
    &&& path[1] == "Unsafe"@
    &&& (path[2] == "load"@ || path[2] == "store"@ || path[2] == "advance"@ || path[2] == "advanceReadOnly"@
        || path[2] == "copy"@ || path[2] == "address"@)
}

/// Whether `path` names a pointer operation of `Ffi`.
pub fn is_ffi_pointer_operation(path: &[String]) -> (r: bool)
    ensures
        r == is_ffi_pointer_path(string_views(path@)),
{
    if path.len() != 3 || !str_eq(path[0].as_str(), "Ffi") {
        return false;
    }
    let owner = path[1].as_str();
    let operation = path[2].as_str();
    (str_eq(owner, "OptionalPointer") || str_eq(owner, "OptionalReadOnlyPointer")) && (str_eq(operation, "fromPointer")
        || str_eq(operation, "isPresent") || str_eq(operation, "require")) || str_eq(owner, "Pointer") && str_eq(
        operation,
        "readOnly",
    )
}

/// Whether `path` names an operation of `Ffi.Unsafe`.
pub fn is_ffi_unsafe_operation(path: &[String]) -> (r: bool)
    ensures
        r == is_ffi_unsafe_path(string_views(path@)),
{
    if path.len() != 3 || !str_eq(path[0].as_str(), "Ffi") || !str_eq(path[1].as_str(), "Unsafe") {
        return false;
    }
    let operation = path[2].as_str();
    str_eq(operation, "load") || str_eq(operation, "store") || str_eq(operation, "advance") || str_eq(
        operation,
        "advanceReadOnly",
    ) || str_eq(operation, "copy") || str_eq(operation, "address")
}

impl Clone for FfiCallbackBindingContract {
    fn clone(&self) -> (r: Self)
        ensures
            r@ == self@,
    {
        FfiCallbackBindingContract {
            lifetime: self.lifetime,
            callback_abi: self.callback_abi,
            signature_fingerprint: String::from_str(self.signature_fingerprint.as_str()),
            thread: self.thread,
            concurrency: self.concurrency,
            reentrancy: self.reentrancy,
            panic_policy: self.panic_policy,
        }
    }
}

impl Clone for FfiCallbackPairContract {
    fn clone(&self) -> (r: Self)
        ensures
            r@ == self@,
    {
        FfiCallbackPairContract {
            callback_parameter_index: self.callback_parameter_index,
            context_parameter_index: self.context_parameter_index,
            lifetime: self.lifetime,
            callback_abi: self.callback_abi,
            signature_fingerprint: String::from_str(self.signature_fingerprint.as_str()),
            thread: self.thread,
            concurrency: self.concurrency,
            reentrancy: self.reentrancy,
            panic_policy: self.panic_policy,
        }
    }
}

impl Clone for ForeignFunctionDeclaration {
    fn clone(&self) -> (r: Self)
        ensures
            r@ == self@,
    {
        let mut link_aliases: Vec<String> = Vec::new();
        let mut i: usize = 0;
        while i < self.link_aliases.len()
            invariant
                i <= self.link_aliases@.len(),
                link_aliases@.len() == i,
                forall|k: int| 0 <= k < i ==> (#[trigger] link_aliases@[k])@ == self.link_aliases@[k]@,
            decreases self.link_aliases.len() - i,
        {
            link_aliases.push(String::from_str(self.link_aliases[i].as_str()));
            i = i + 1;
        }
        assert(string_views(link_aliases@) =~= string_views(self.link_aliases@));
        let mut callback_pairs: Vec<FfiCallbackPairContract> = Vec::new();
        let mut j: usize = 0;
        while j < self.callback_pairs.len()
            invariant
                j <= self.callback_pairs@.len(),
                callback_pairs@.len() == j,
                forall|k: int| 0 <= k < j ==> (#[trigger] callback_pairs@[k])@ == self.callback_pairs@[k]@,
            decreases self.callback_pairs.len() - j,
        {
            callback_pairs.push(self.callback_pairs[j].clone());
            j = j + 1;
        }
        assert(pair_views(callback_pairs@) =~= pair_views(self.callback_pairs@));
        ForeignFunctionDeclaration {
            symbol: self.symbol,
            external_symbol: String::from_str(self.external_symbol.as_str()),
            abi: self.abi,
            link_aliases,
            nonblocking: self.nonblocking,
            effects: self.effects,
            callback_pairs,
            span: self.span,
        }
    }
}

} // verus!
