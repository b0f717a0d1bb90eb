//! The permutation layout generator: translates a genome — an ordered
//! assignment of symbols to the non-fixed key positions — back into a
//! full [`Layout`] by overlaying it onto the fixed-key base layout.

use vstd::prelude::*;

use crate::key::Keyboard;
use crate::layout::{
    config_entries, config_key_map, dims_ok, final_entry_ok, flat_count, flat_decompose,
    flat_decompose_from, hand_mods, key_map_spec, lemma_flat_count_mono,
    lemma_flat_decompose_correct, mods_resolvable, HandModifiers, Layout, LayoutError, ResEntry,
};
use crate::key::Hand;

verus! {

/// Number of non-fixed keys among the first `i` positions.
pub open spec fn nf_before(fixed: Seq<bool>, i: int) -> int
    decreases i,
{
    if i <= 0 {
        0
    } else {
        nf_before(fixed, i - 1) + if fixed[i - 1] {
            0int
        } else {
            1int
        }
    }
}

/// Number of non-fixed key positions: the genome length.
pub open spec fn nf_count(fixed: Seq<bool>) -> int {
    nf_before(fixed, fixed.len() as int)
}

/// There are at most `i` non-fixed keys among the first `i`.
pub proof fn lemma_nf_before_le(fixed: Seq<bool>, i: int)
    requires
        0 <= i,
    ensures
        0 <= nf_before(fixed, i) <= i,
    decreases i,
{
    if i > 0 {
        lemma_nf_before_le(fixed, i - 1);
    }
}

/// `nf_before` is monotone.
pub proof fn lemma_nf_before_mono(fixed: Seq<bool>, i: int, j: int)
    requires
        i <= j,
    ensures
        nf_before(fixed, i) <= nf_before(fixed, j),
    decreases j - i,
{
    if i < j {
        lemma_nf_before_mono(fixed, i, j - 1);
    }
}

/// The base-layer symbol row of key `i` after overlaying a genome.
pub open spec fn overlay_row(
    kc: Seq<Vec<char>>,
    fixed: Seq<bool>,
    syms: Seq<char>,
    i: int,
) -> Seq<char> {
    if fixed[i] {
        kc[i]@
    } else {
        kc[i]@.update(0, syms[nf_before(fixed, i)])
    }
}

/// Builds layouts from genomes over a fixed configuration.
#[derive(Debug, Clone)]
pub struct LayoutGenerator {
    pub keyboard: Keyboard,
    /// Per key, the symbols of its layers in the base layout.
    pub base_key_chars: Vec<Vec<char>>,
    /// Which keys are excluded from permutation.
    pub fixed_keys: Vec<bool>,
    /// Modifier declarations per layer above the base layer.
    pub modifiers: Vec<HandModifiers>,
    /// Per-layer cost weights.
    pub layer_costs: Vec<u64>,
}

impl LayoutGenerator {
    /// Consistent configuration dimensions.
    pub open spec fn dims(self) -> bool {
        &&& self.base_key_chars@.len() == self.keyboard.keys@.len()
        &&& self.base_key_chars@.len() == self.fixed_keys@.len()
    }

    pub fn new(
        keyboard: Keyboard,
        base_key_chars: Vec<Vec<char>>,
        fixed_keys: Vec<bool>,
        modifiers: Vec<HandModifiers>,
        layer_costs: Vec<u64>,
    ) -> (r: Self)
        ensures
            r.keyboard == keyboard,
            r.base_key_chars == base_key_chars,
            r.fixed_keys == fixed_keys,
            r.modifiers == modifiers,
            r.layer_costs == layer_costs,
    {
        Self { keyboard, base_key_chars, fixed_keys, modifiers, layer_costs }
    }

    /// What holds of a layout generated from genome `syms`: the layout
    /// is well formed, structured like the base configuration, and each
    /// layer key carries the base symbol except that layer 0 of the
    /// `t`-th non-fixed key carries `syms[t]`.
    pub open spec fn generated_ok(self, syms: Seq<char>, l: Layout) -> bool {
        &&& l.wf()
        &&& l.num_keys() == self.base_key_chars@.len()
        &&& l.layer_costs_seq() == self.layer_costs@
        &&& (forall|i: int|
            0 <= i < l.num_keys() ==> (#[trigger] l.key_layers_seq()[i]).len()
                == self.base_key_chars@[i]@.len())
        &&& (forall|i: int, j: int|
            #![trigger l.key_layers_seq()[i][j]]
            0 <= i < l.num_keys() && 0 <= j < self.base_key_chars@[i]@.len()
                ==> l.key_layers_seq()[i][j] as int == flat_count(self.base_key_chars@, i) + j)
        &&& (forall|i: int, j: int|
            #![trigger l.key_layers_seq()[i][j]]
            0 <= i < l.num_keys() && 0 <= j < self.base_key_chars@[i]@.len() ==> {
                let lk = l.layerkeys@[l.key_layers_seq()[i][j] as int];
                &&& lk.layer == j
                &&& lk.key == self.keyboard.keys@[i]
                &&& lk.is_fixed == self.fixed_keys@[i]
                &&& lk.key_index == i
                &&& lk.symbol == overlay_row(self.base_key_chars@, self.fixed_keys@, syms, i)[j]
            })
    }

    /// The resolution entries of the overlaid configuration.
    pub open spec fn overlay_entries(self, syms: Seq<char>) -> Seq<ResEntry> {
        Seq::new(
            flat_count(self.base_key_chars@, self.base_key_chars@.len() as int) as nat,
            |k: int|
                {
                    let (i, j) = flat_decompose(self.base_key_chars@, k);
                    (
                        overlay_row(self.base_key_chars@, self.fixed_keys@, syms, i)[j],
                        self.keyboard.keys@[i].cost,
                        j as usize,
                    )
                },
        )
    }

    /// The symbol resolution map of the overlaid configuration.
    pub open spec fn overlay_key_map(self, syms: Seq<char>) -> Map<char, u16> {
        key_map_spec(self.overlay_entries(syms), self.layer_costs@)
    }

    /// When generation succeeds: consistent dimensions and every
    /// declared modifier resolvable in the overlaid layout.
    pub open spec fn can_generate(self, syms: Seq<char>) -> bool {
        &&& dims_ok(
            self.base_key_chars@,
            self.keyboard.keys@.len() as int,
            self.fixed_keys@.len() as int,
        )
        &&& mods_resolvable(self.modifiers@, self.overlay_key_map(syms))
    }

    /// Overlay a genome onto the base layout and build the layout,
    /// without validating the genome's symbols: the fast path of the
    /// search loop.  The genome must have exactly one symbol per
    /// non-fixed key.  Fails exactly when the configuration itself is
    /// inconsistent or a declared modifier symbol is not producible by
    /// the overlaid layout.
    pub fn generate_unchecked(&self, symbols: &Vec<char>) -> (r: Result<Layout, LayoutError>)
        requires
            self.dims(),
            symbols@.len() == nf_count(self.fixed_keys@),
        ensures
            (match r {
                Ok(l) => self.generated_ok(symbols@, l),
                Err(e) => !(e is InvalidSymbols),
            }),
            (r is Err) <==> !self.can_generate(symbols@),
    {
        let n = self.base_key_chars.len();
        let mut overlaid: Vec<Vec<char>> = Vec::new();
        let mut pos: usize = 0;
        let mut i: usize = 0;
        while i < n
            invariant
                0 <= i <= n,
                n == self.base_key_chars@.len(),
                n == self.fixed_keys@.len(),
                symbols@.len() == nf_count(self.fixed_keys@),
                overlaid@.len() == i,
                pos == nf_before(self.fixed_keys@, i as int),
                0 <= pos,
                forall|i2: int|
                    0 <= i2 < i ==> (#[trigger] overlaid@[i2]@) == overlay_row(
                        self.base_key_chars@,
                        self.fixed_keys@,
                        symbols@,
                        i2,
                    ),
                forall|i2: int|
                    0 <= i2 < i ==> (#[trigger] overlaid@[i2]@).len()
                        == self.base_key_chars@[i2]@.len(),
            decreases n - i,
        {
            let mut row = clone_chars(&self.base_key_chars[i]);
            if !self.fixed_keys[i] {
                if row.len() == 0 {
                    proof {
                        assert(!dims_ok(
                            self.base_key_chars@,
                            self.keyboard.keys@.len() as int,
                            self.fixed_keys@.len() as int,
                        ));
                    }
                    return Err(LayoutError::EmptyKey);
                }
                proof {
                    lemma_nf_before_mono(self.fixed_keys@, i as int + 1, n as int);
                    lemma_nf_before_le(self.fixed_keys@, i as int);
                }
                row.set(0, symbols[pos]);
                pos = pos + 1;
            }
            overlaid.push(row);
            i = i + 1;
        }
        let fixed2 = clone_bools(&self.fixed_keys);
        let mods2 = clone_mods(&self.modifiers);
        let costs2 = clone_u64s(&self.layer_costs);
        let ghost ov = overlaid@;
        let ghost fx = fixed2@;
        let ghost md = mods2@;
        let result = Layout::new(overlaid, fixed2, &self.keyboard, mods2, costs2);
        proof {
            lemma_flat_congruent(ov, self.base_key_chars@);
            lemma_overlay_config(*self, ov, fx, md, symbols@);
        }
        match result {
            Ok(l) => {
                proof {
                    assert forall|i2: int, j2: int|
                        #![trigger l.key_layers_seq()[i2][j2]]
                        0 <= i2 < l.num_keys() && 0 <= j2 < self.base_key_chars@[i2]@.len()
                            implies {
                        let lk = l.layerkeys@[l.key_layers_seq()[i2][j2] as int];
                        &&& lk.layer == j2
                        &&& lk.key == self.keyboard.keys@[i2]
                        &&& lk.is_fixed == self.fixed_keys@[i2]
                        &&& lk.key_index == i2
                        &&& lk.symbol == overlay_row(
                            self.base_key_chars@,
                            self.fixed_keys@,
                            symbols@,
                            i2,
                        )[j2]
                    } by {
                        let k2 = flat_count(ov, i2) + j2;
                        lemma_flat_decompose_correct(ov, i2, j2);
                        lemma_flat_count_mono(ov, i2 + 1, ov.len() as int);
                        assert(final_entry_ok(
                            l.layerkeys@[k2],
                            k2,
                            ov,
                            self.keyboard.keys@,
                            fx,
                            md,
                            l.key_map_view(),
                        ));
                        assert(l.layerkeys@[k2].symbol == ov[i2]@[j2]);
                    }
                }
                Ok(l)
            },
            Err(e) => Err(e),
        }
    }

    /// The declared alphabet: the non-fixed base-layer symbols of the
    /// base configuration, in key order.
    pub open spec fn declared_prefix(self, i: int) -> Seq<char>
        decreases i,
    {
        if i <= 0 {
            Seq::empty()
        } else {
            let s = self.declared_prefix(i - 1);
            if self.fixed_keys@[i - 1] {
                s
            } else {
                s.push(self.base_key_chars@[i - 1]@[0])
            }
        }
    }

    /// The declared alphabet of the whole configuration.
    pub open spec fn declared_alphabet(self) -> Seq<char> {
        self.declared_prefix(self.fixed_keys@.len() as int)
    }

    /// The declared alphabet as a vector.
    pub fn declared_alphabet_vec(&self) -> (r: Vec<char>)
        requires
            self.dims(),
            forall|i: int|
                0 <= i < self.base_key_chars@.len() ==> (#[trigger] self.base_key_chars@[i]@).len()
                    >= 1,
        ensures
            r@ == self.declared_alphabet(),
    {
        let mut out: Vec<char> = Vec::new();
        let mut i: usize = 0;
        while i < self.fixed_keys.len()
            invariant
                0 <= i <= self.fixed_keys@.len(),
                self.dims(),
                forall|i2: int|
                    0 <= i2 < self.base_key_chars@.len() ==> (#[trigger] self.base_key_chars@[
                    i2]@).len() >= 1,
                out@ == self.declared_prefix(i as int),
            decreases self.fixed_keys@.len() - i,
        {
            if !self.fixed_keys[i] {
                out.push(self.base_key_chars[i][0]);
            }
            i = i + 1;
        }
        out
    }

    /// Overlay a genome onto the base layout after validating that its
    /// symbols are exactly the declared alphabet: the checked
    /// counterpart of [`LayoutGenerator::generate_unchecked`]; both
    /// produce equivalent layouts for valid input.
    pub fn generate(&self, symbols: &Vec<char>) -> (r: Result<Layout, LayoutError>)
        requires
            self.dims(),
            symbols@.len() == nf_count(self.fixed_keys@),
            forall|i: int|
                0 <= i < self.base_key_chars@.len() ==> (#[trigger] self.base_key_chars@[i]@).len()
                    >= 1,
        ensures
            (match r {
                Ok(l) => can_match(self.declared_alphabet(), symbols@) && self.generated_ok(
                    symbols@,
                    l,
                ),
                Err(LayoutError::InvalidSymbols) => !can_match(
                    self.declared_alphabet(),
                    symbols@,
                ),
                Err(e) => true,
            }),
            !can_match(self.declared_alphabet(), symbols@) ==> r == Err::<
                Layout,
                LayoutError,
            >(LayoutError::InvalidSymbols),
            (r is Err) <==> !(can_match(self.declared_alphabet(), symbols@)
                && self.can_generate(symbols@)),
    {
        let declared = self.declared_alphabet_vec();
        if !matches_alphabet(&declared, symbols) {
            return Err(LayoutError::InvalidSymbols);
        }
        self.generate_unchecked(symbols)
    }

    /// The non-fixed base symbols of a generated layout are exactly the
    /// genome: the layout's text form reproduces the genome.
    pub proof fn lemma_generated_text(self, syms: Seq<char>, l: Layout, i: int)
        requires
            self.generated_ok(syms, l),
            self.dims(),
            syms.len() == nf_count(self.fixed_keys@),
            0 <= i <= l.num_keys(),
        ensures
            l.nonfixed_symbols_prefix(i) == syms.take(nf_before(self.fixed_keys@, i)),
        decreases i,
    {
        if i == 0 {
            assert(l.nonfixed_symbols_prefix(0) =~= syms.take(0));
        } else {
            self.lemma_generated_text(syms, l, i - 1);
            let fixed = self.fixed_keys@;
            assert(self.base_key_chars@[i - 1]@.len() >= 1) by {
                assert(l.key_layers_seq()[i - 1].len() == self.base_key_chars@[i - 1]@.len());
                assert(l.key_layers_seq()[i - 1].len() >= 1);
            }
            let lk = l.layerkeys@[l.key_layers_seq()[i - 1][0] as int];
            assert(lk.is_fixed == fixed[i - 1]);
            if fixed[i - 1] {
                assert(syms.take(nf_before(fixed, i)) == syms.take(nf_before(fixed, i - 1)));
            } else {
                lemma_nf_before_mono(fixed, i, fixed.len() as int);
                lemma_nf_before_le(fixed, i - 1);
                assert(overlay_row(self.base_key_chars@, fixed, syms, i - 1)[0] == syms[
                    nf_before(fixed, i - 1)]);
                assert(lk.symbol == syms[nf_before(fixed, i - 1)]);
                assert(syms.take(nf_before(fixed, i)) =~= syms.take(
                    nf_before(fixed, i - 1),
                ).push(syms[nf_before(fixed, i - 1)]));
            }
        }
    }

    /// With every key fixed the genome is empty and the generator
    /// reproduces the base layout unchanged: every layer key carries its
    /// base symbol.
    pub proof fn lemma_all_fixed_base_unchanged(self, syms: Seq<char>, l: Layout)
        requires
            self.dims(),
            self.generated_ok(syms, l),
            forall|i: int| 0 <= i < self.fixed_keys@.len() ==> #[trigger] self.fixed_keys@[i],
        ensures
            forall|i: int, j: int|
                #![trigger l.key_layers_seq()[i][j]]
                0 <= i < l.num_keys() && 0 <= j < self.base_key_chars@[i]@.len() ==> l.layerkeys@[
                    l.key_layers_seq()[i][j] as int].symbol == self.base_key_chars@[i]@[j],
    {
        assert forall|i: int, j: int|
            #![trigger l.key_layers_seq()[i][j]]
            0 <= i < l.num_keys() && 0 <= j < self.base_key_chars@[i]@.len() implies l.layerkeys@[
            l.key_layers_seq()[i][j] as int].symbol == self.base_key_chars@[i]@[j] by {
            assert(self.fixed_keys@[i]);
            assert(overlay_row(self.base_key_chars@, self.fixed_keys@, syms, i)
                == self.base_key_chars@[i]@);
        }
    }
}

/// Overlaying a genome yields a genome-length text form.
pub proof fn lemma_generated_text_full(g: LayoutGenerator, syms: Seq<char>, l: Layout)
    requires
        g.generated_ok(syms, l),
        g.dims(),
        syms.len() == nf_count(g.fixed_keys@),
    ensures
        l.nonfixed_symbols() == syms,
{
    g.lemma_generated_text(syms, l, l.num_keys());
    assert(syms.take(nf_count(g.fixed_keys@)) =~= syms);
}

/// Index of the first occurrence of a symbol, -1 when absent.
pub open spec fn find_first(s: Seq<char>, c: char) -> int
    decreases s.len(),
{
    if s.len() == 0 {
        -1
    } else if s[0] == c {
        0
    } else {
        let r = find_first(s.drop_first(), c);
        if r < 0 {
            -1
        } else {
            r + 1
        }
    }
}

/// Greedy multiset matching: every genome symbol consumes one equal
/// symbol of the declared alphabet.
pub open spec fn can_match(declared: Seq<char>, syms: Seq<char>) -> bool
    decreases syms.len(),
{
    if syms.len() == 0 {
        true
    } else {
        let i = find_first(declared, syms[0]);
        if i < 0 {
            false
        } else {
            can_match(declared.remove(i), syms.drop_first())
        }
    }
}

/// A scan that found `c` at position `j` with no earlier occurrence
/// found the first occurrence.
proof fn lemma_find_first_at(s: Seq<char>, c: char, j: int)
    requires
        0 <= j < s.len(),
        s[j] == c,
        forall|j2: int| 0 <= j2 < j ==> s[j2] != c,
    ensures
        find_first(s, c) == j,
    decreases j,
{
    if j > 0 {
        assert(s.drop_first()[j - 1] == s[j]);
        assert forall|j2: int| 0 <= j2 < j - 1 implies s.drop_first()[j2] != c by {
            assert(s.drop_first()[j2] == s[j2 + 1]);
        }
        lemma_find_first_at(s.drop_first(), c, j - 1);
    }
}

/// A scan that found no occurrence at all found none.
proof fn lemma_find_first_none(s: Seq<char>, c: char)
    requires
        forall|j2: int| 0 <= j2 < s.len() ==> s[j2] != c,
    ensures
        find_first(s, c) < 0,
    decreases s.len(),
{
    if s.len() > 0 {
        assert forall|j2: int| 0 <= j2 < s.drop_first().len() implies s.drop_first()[j2] != c by {
            assert(s.drop_first()[j2] == s[j2 + 1]);
        }
        lemma_find_first_none(s.drop_first(), c);
    }
}

/// Find the first occurrence of a symbol in a vector.
fn find_first_vec(v: &Vec<char>, c: char) -> (r: Option<usize>)
    ensures
        match r {
            Some(i) => i < v@.len() && find_first(v@, c) == i,
            None => find_first(v@, c) < 0,
        },
{
    let mut j: usize = 0;
    while j < v.len()
        invariant
            0 <= j <= v@.len(),
            forall|j2: int| 0 <= j2 < j ==> v@[j2] != c,
        decreases v@.len() - j,
    {
        if v[j] == c {
            proof {
                lemma_find_first_at(v@, c, j as int);
            }
            return Some(j);
        }
        j = j + 1;
    }
    proof {
        lemma_find_first_none(v@, c);
    }
    None
}

/// Whether a genome's symbols match the declared alphabet, consuming
/// one declared symbol per genome symbol.
pub fn matches_alphabet(declared: &Vec<char>, syms: &Vec<char>) -> (r: bool)
    ensures
        r == can_match(declared@, syms@),
{
    let mut remaining = clone_chars(declared);
    let mut t: usize = 0;
    proof {
        assert(syms@.skip(0) =~= syms@);
    }
    while t < syms.len()
        invariant
            0 <= t <= syms@.len(),
            can_match(declared@, syms@) == can_match(remaining@, syms@.skip(t as int)),
        decreases syms@.len() - t,
    {
        let ghost pre = remaining@;
        let c = syms[t];
        proof {
            assert(syms@.skip(t as int)[0] == syms@[t as int]);
        }
        match find_first_vec(&remaining, c) {
            None => {
                proof {
                    assert(!can_match(pre, syms@.skip(t as int)));
                }
                return false;
            },
            Some(i) => {
                remaining.remove(i);
                proof {
                    assert(remaining@ == pre.remove(i as int));
                    assert(syms@.skip(t as int).drop_first() =~= syms@.skip(t as int + 1));
                    assert(can_match(pre, syms@.skip(t as int)) == can_match(
                        remaining@,
                        syms@.skip(t as int + 1),
                    ));
                }
            },
        }
        t = t + 1;
    }
    proof {
        assert(syms@.skip(syms@.len() as int) =~= Seq::<char>::empty());
        assert(can_match(remaining@, Seq::<char>::empty()));
    }
    true
}

/// Row sequences with equal row lengths have equal flat counts and
/// decompositions.
pub proof fn lemma_flat_congruent(k1: Seq<Vec<char>>, k2: Seq<Vec<char>>)
    requires
        k1.len() == k2.len(),
        forall|i: int| 0 <= i < k1.len() ==> (#[trigger] k1[i]@).len() == k2[i]@.len(),
    ensures
        forall|i: int| 0 <= i <= k1.len() ==> flat_count(k1, i) == flat_count(k2, i),
{
    assert forall|i: int| 0 <= i <= k1.len() implies flat_count(k1, i) == flat_count(k2, i) by {
        lemma_flat_congruent_upto(k1, k2, i);
    }
}

proof fn lemma_flat_congruent_upto(k1: Seq<Vec<char>>, k2: Seq<Vec<char>>, i: int)
    requires
        k1.len() == k2.len(),
        forall|i2: int| 0 <= i2 < k1.len() ==> (#[trigger] k1[i2]@).len() == k2[i2]@.len(),
        i <= k1.len(),
    ensures
        flat_count(k1, i) == flat_count(k2, i),
    decreases i,
{
    if i > 0 {
        lemma_flat_congruent_upto(k1, k2, i - 1);
    }
}

/// Copy a character vector.
pub fn clone_chars(v: &Vec<char>) -> (r: Vec<char>)
    ensures
        r@ == v@,
{
    let mut out: Vec<char> = Vec::new();
    let mut i: usize = 0;
    while i < v.len()
        invariant
            0 <= i <= v@.len(),
            out@ =~= v@.take(i as int),
        decreases v@.len() - i,
    {
        out.push(v[i]);
        proof {
            assert(out@ =~= v@.take(i + 1));
        }
        i = i + 1;
    }
    proof {
        assert(v@.take(v@.len() as int) =~= v@);
    }
    out
}

/// Copy a boolean vector.
pub fn clone_bools(v: &Vec<bool>) -> (r: Vec<bool>)
    ensures
        r@ == v@,
{
    let mut out: Vec<bool> = Vec::new();
    let mut i: usize = 0;
    while i < v.len()
        invariant
            0 <= i <= v@.len(),
            out@ =~= v@.take(i as int),
        decreases v@.len() - i,
    {
        out.push(v[i]);
        proof {
            assert(out@ =~= v@.take(i + 1));
        }
        i = i + 1;
    }
    proof {
        assert(v@.take(v@.len() as int) =~= v@);
    }
    out
}

/// Copy a cost vector.
pub fn clone_u64s(v: &Vec<u64>) -> (r: Vec<u64>)
    ensures
        r@ == v@,
{
    let mut out: Vec<u64> = Vec::new();
    let mut i: usize = 0;
    while i < v.len()
        invariant
            0 <= i <= v@.len(),
            out@ =~= v@.take(i as int),
        decreases v@.len() - i,
    {
        out.push(v[i]);
        proof {
            assert(out@ =~= v@.take(i + 1));
        }
        i = i + 1;
    }
    proof {
        assert(v@.take(v@.len() as int) =~= v@);
    }
    out
}

/// Copy a modifier declaration list, preserving every hand's symbols.
pub fn clone_mods(v: &Vec<HandModifiers>) -> (r: Vec<HandModifiers>)
    ensures
        r@.len() == v@.len(),
        forall|i: int|
            0 <= i < v@.len() ==> (#[trigger] r@[i]).left@ == v@[i].left@ && r@[i].right@
                == v@[i].right@,
{
    let mut out: Vec<HandModifiers> = Vec::new();
    let mut i: usize = 0;
    while i < v.len()
        invariant
            0 <= i <= v@.len(),
            out@.len() == i,
            forall|i2: int|
                0 <= i2 < i ==> (#[trigger] out@[i2]).left@ == v@[i2].left@ && out@[i2].right@
                    == v@[i2].right@,
        decreases v@.len() - i,
    {
        let left = clone_chars(&v[i].left);
        let right = clone_chars(&v[i].right);
        let hm = HandModifiers { left, right };
        out.push(hm);
        i = i + 1;
    }
    out
}

/// Drives [`LayoutGenerator`] from index genomes: the search permutes
/// indices into the permutable symbol list.
#[derive(Debug, Clone)]
pub struct PermutationLayoutGenerator {
    pub generator: LayoutGenerator,
    /// The non-fixed base symbols of the starting layout, in canonical
    /// order.
    pub base_symbols: Vec<char>,
    /// Positions within `base_symbols` that the search permutes.
    pub perm_indices: Vec<usize>,
    /// The symbols at those positions, in canonical order.
    pub perm_keys: Vec<char>,
}

/// The genome symbols after overlaying an index genome onto the base
/// symbols, one permuted position at a time.
pub open spec fn permuted_from(
    base: Seq<char>,
    idxs: Seq<usize>,
    keys: Seq<char>,
    genome: Seq<usize>,
    t: int,
) -> Seq<char>
    decreases t,
{
    if t <= 0 {
        base
    } else {
        permuted_from(base, idxs, keys, genome, t - 1).update(
            idxs[t - 1] as int,
            keys[genome[t - 1] as int],
        )
    }
}

impl PermutationLayoutGenerator {
    /// Split the starting symbols into fixed and permutable positions:
    /// a symbol named in `fixed_chars` stays, the rest are permuted.
    pub fn new(base_symbols: Vec<char>, fixed_chars: &Vec<char>, generator: LayoutGenerator) -> (r:
        Self)
        ensures
            r.generator == generator,
            r.base_symbols == base_symbols,
            r.perm_indices@.len() == r.perm_keys@.len(),
            forall|t: int|
                0 <= t < r.perm_indices@.len() ==> (#[trigger] r.perm_indices@[t] as int)
                    < base_symbols@.len() && r.perm_keys@[t] == base_symbols@[r.perm_indices@[t] as int],
    {
        let mut perm_indices: Vec<usize> = Vec::new();
        let mut perm_keys: Vec<char> = Vec::new();
        let mut i: usize = 0;
        while i < base_symbols.len()
            invariant
                0 <= i <= base_symbols@.len(),
                perm_indices@.len() == perm_keys@.len(),
                forall|t: int|
                    0 <= t < perm_indices@.len() ==> (#[trigger] perm_indices@[t] as int)
                        < base_symbols@.len() && perm_keys@[t] == base_symbols@[perm_indices@[t] as int],
            decreases base_symbols@.len() - i,
        {
            let c = base_symbols[i];
            let mut is_fixed = false;
            let mut j: usize = 0;
            while j < fixed_chars.len()
                invariant
                    0 <= j <= fixed_chars@.len(),
                decreases fixed_chars@.len() - j,
            {
                if fixed_chars[j] == c {
                    is_fixed = true;
                }
                j = j + 1;
            }
            if !is_fixed {
                perm_indices.push(i);
                perm_keys.push(c);
            }
            i = i + 1;
        }
        Self { generator, base_symbols, perm_indices, perm_keys }
    }

    /// Positions of the starting symbols that the search may permute.
    pub fn permutable_indices(&self) -> (r: Vec<usize>)
        ensures
            r@ == self.perm_indices@,
    {
        let mut out: Vec<usize> = Vec::new();
        let mut i: usize = 0;
        while i < self.perm_indices.len()
            invariant
                0 <= i <= self.perm_indices@.len(),
                out@ =~= self.perm_indices@.take(i as int),
            decreases self.perm_indices@.len() - i,
        {
            out.push(self.perm_indices[i]);
            proof {
                assert(out@ =~= self.perm_indices@.take(i + 1));
            }
            i = i + 1;
        }
        proof {
            assert(self.perm_indices@.take(self.perm_indices@.len() as int)
                =~= self.perm_indices@);
        }
        out
    }

    /// Materialize the layout of an index genome.  A genome of the wrong
    /// length or with an out-of-range index is a programming error of
    /// the search loop, excluded here rather than handled.
    pub fn generate_layout(&self, genome: &Vec<usize>) -> (r: Result<Layout, LayoutError>)
        requires
            self.generator.dims(),
            self.base_symbols@.len() == nf_count(self.generator.fixed_keys@),
            genome@.len() == self.perm_indices@.len(),
            forall|t: int|
                0 <= t < genome@.len() ==> (#[trigger] genome@[t] as int) < self.perm_keys@.len(),
            forall|t: int|
                0 <= t < self.perm_indices@.len() ==> (#[trigger] self.perm_indices@[t] as int)
                    < self.base_symbols@.len(),
        ensures
            (match r {
                Ok(l) => self.generator.generated_ok(
                    permuted_from(
                        self.base_symbols@,
                        self.perm_indices@,
                        self.perm_keys@,
                        genome@,
                        genome@.len() as int,
                    ),
                    l,
                ),
                Err(e) => true,
            }),
            (r is Err) <==> !self.generator.can_generate(
                permuted_from(
                    self.base_symbols@,
                    self.perm_indices@,
                    self.perm_keys@,
                    genome@,
                    genome@.len() as int,
                ),
            ),
    {
        let mut syms = clone_chars(&self.base_symbols);
        let mut t: usize = 0;
        while t < genome.len()
            invariant
                0 <= t <= genome@.len(),
                genome@.len() == self.perm_indices@.len(),
                forall|t2: int|
                    0 <= t2 < genome@.len() ==> (#[trigger] genome@[t2] as int)
                        < self.perm_keys@.len(),
                forall|t2: int|
                    0 <= t2 < self.perm_indices@.len() ==> (#[trigger] self.perm_indices@[t2] as int)
                        < self.base_symbols@.len(),
                syms@.len() == self.base_symbols@.len(),
                syms@ == permuted_from(
                    self.base_symbols@,
                    self.perm_indices@,
                    self.perm_keys@,
                    genome@,
                    t as int,
                ),
            decreases genome@.len() - t,
        {
            let idx = self.perm_indices[t];
            let sym = self.perm_keys[genome[t]];
            syms.set(idx, sym);
            t = t + 1;
        }
        self.generator.generate_unchecked(&syms)
    }
}

/// Row sequences with equal row lengths decompose flat indices alike.
proof fn lemma_flat_decompose_congruent_from(
    k1: Seq<Vec<char>>,
    k2: Seq<Vec<char>>,
    i: int,
    k: int,
)
    requires
        k1.len() == k2.len(),
        forall|i2: int| 0 <= i2 < k1.len() ==> (#[trigger] k1[i2]@).len() == k2[i2]@.len(),
    ensures
        flat_decompose_from(k1, i, k) == flat_decompose_from(k2, i, k),
    decreases k1.len() - i,
{
    if 0 <= i && i < k1.len() && !(k < k1[i]@.len()) {
        lemma_flat_decompose_congruent_from(k1, k2, i + 1, k - k1[i]@.len());
    }
}

/// The built overlay rows give exactly the overlaid configuration: its
/// dimensions, resolution entries and modifier resolvability coincide
/// with the generator's own.
proof fn lemma_overlay_config(
    g: LayoutGenerator,
    ov: Seq<Vec<char>>,
    fx: Seq<bool>,
    md: Seq<HandModifiers>,
    syms: Seq<char>,
)
    requires
        g.dims(),
        ov.len() == g.base_key_chars@.len(),
        fx == g.fixed_keys@,
        forall|i2: int|
            0 <= i2 < ov.len() ==> (#[trigger] ov[i2]@) == overlay_row(
                g.base_key_chars@,
                g.fixed_keys@,
                syms,
                i2,
            ),
        forall|i2: int| 0 <= i2 < ov.len() ==> (#[trigger] ov[i2]@).len() == g.base_key_chars@[i2]@.len(),
        md.len() == g.modifiers@.len(),
        forall|li: int|
            0 <= li < md.len() ==> (#[trigger] md[li]).left@ == g.modifiers@[li].left@
                && md[li].right@ == g.modifiers@[li].right@,
    ensures
        dims_ok(ov, g.keyboard.keys@.len() as int, fx.len() as int) == dims_ok(
            g.base_key_chars@,
            g.keyboard.keys@.len() as int,
            g.fixed_keys@.len() as int,
        ),
        config_key_map(ov, g.keyboard.keys@, g.layer_costs@) == g.overlay_key_map(syms),
        mods_resolvable(md, config_key_map(ov, g.keyboard.keys@, g.layer_costs@))
            == mods_resolvable(g.modifiers@, g.overlay_key_map(syms)),
{
    let base = g.base_key_chars@;
    lemma_flat_congruent(ov, base);
    // Dimensions coincide: lengths and per-row emptiness agree.
    let nk = g.keyboard.keys@.len() as int;
    if dims_ok(base, nk, g.fixed_keys@.len() as int) {
        assert forall|i: int| 0 <= i < ov.len() implies (#[trigger] ov[i]@).len() >= 1 by {
            assert(base[i]@.len() >= 1);
        }
        assert(dims_ok(ov, nk, fx.len() as int));
    }
    if dims_ok(ov, nk, fx.len() as int) {
        assert forall|i: int| 0 <= i < base.len() implies (#[trigger] base[i]@).len() >= 1 by {
            assert(ov[i]@.len() >= 1);
        }
        assert(dims_ok(base, nk, g.fixed_keys@.len() as int));
    }
    // The resolution entries coincide.
    let ce = config_entries(ov, g.keyboard.keys@);
    let oe = g.overlay_entries(syms);
    assert(ce.len() == oe.len());
    assert forall|k: int| 0 <= k < ce.len() implies #[trigger] ce[k] == oe[k] by {
        lemma_flat_decompose_congruent_from(ov, base, 0, k);
        let (i, j) = flat_decompose(base, k);
        lemma_flat_count_mono(ov, 0, ov.len() as int);
        assert(flat_count(ov, ov.len() as int) == flat_count(base, base.len() as int));
        assert(0 <= k < flat_count(base, base.len() as int));
        crate::layout::lemma_flat_decompose_range(base, base.len() as int, k);
        assert(ov[i]@ == overlay_row(base, g.fixed_keys@, syms, i));
        assert(ce[k] == (ov[i]@[j], g.keyboard.keys@[i].cost, j as usize));
        assert(oe[k] == (
            overlay_row(base, g.fixed_keys@, syms, i)[j],
            g.keyboard.keys@[i].cost,
            j as usize,
        ));
    }
    assert(ce =~= oe);
    assert(config_entries(ov, g.keyboard.keys@) == g.overlay_entries(syms));
    // Modifier resolvability transfers through equal hand symbol lists.
    let km = config_key_map(ov, g.keyboard.keys@, g.layer_costs@);
    assert forall|li: int, h: Hand|
        0 <= li < md.len() implies #[trigger] hand_mods(md[li], h) == hand_mods(
        g.modifiers@[li],
        h,
    ) by {
        match h {
            Hand::Left => {},
            Hand::Right => {},
        }
    }
    assert(mods_resolvable(md, km) == mods_resolvable(g.modifiers@, km)) by {
        if mods_resolvable(md, km) {
            assert forall|li: int, h: Hand, j: int|
                0 <= li < g.modifiers@.len() && 0 <= j < hand_mods(g.modifiers@[li], h).len()
                    implies km.contains_key(#[trigger] hand_mods(g.modifiers@[li], h)[j]) by {
                assert(hand_mods(md[li], h) == hand_mods(g.modifiers@[li], h));
                assert(km.contains_key(hand_mods(md[li], h)[j]));
            }
        }
        if mods_resolvable(g.modifiers@, km) {
            assert forall|li: int, h: Hand, j: int|
                0 <= li < md.len() && 0 <= j < hand_mods(md[li], h).len() implies km.contains_key(
                #[trigger] hand_mods(md[li], h)[j]) by {
                assert(hand_mods(md[li], h) == hand_mods(g.modifiers@[li], h));
                assert(km.contains_key(hand_mods(g.modifiers@[li], h)[j]));
            }
        }
    }
}

} // verus!
