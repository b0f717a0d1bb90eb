//! The layout model: binds symbols to (key, layer) pairs, resolves a
//! symbol to its cheapest representation and resolves the modifier chain
//! needed to reach a layer.

use vstd::prelude::*;

use crate::fixedpoint::{sat_add, sat_add_spec};
use crate::fxmap::{symbol_map_get, symbol_map_insert, symbol_map_new};
use crate::key::{Hand, Key, KeyIndex, Keyboard};
use crate::text::chars_to_string;

verus! {

/// The index of a [`LayerKey`] in the `layerkeys` sequence of a [`Layout`].
///
/// Deliberately 16 bits wide: it is the key of the large n-gram maps and
/// dominates evaluation memory and throughput.
pub type LayerKeyIndex = u16;

/// What symbol resolution reads of a layer key: its symbol, its key's
/// cost and its layer.
pub type ResEntry = (char, u64, usize);

/// Two costs within this distance resolve ties by layer (0.01 in
/// fixed-point units).
pub const COST_TOLERANCE: u64 = 10000;

/// A symbol that can be produced with the layout: a key to press and the
/// layer of the layout that produces the symbol.
#[derive(Debug, Clone, PartialEq)]
pub struct LayerKey {
    /// Layer of the layout which the symbol belongs to.
    pub layer: usize,
    /// Key to press for the symbol.
    pub key: Key,
    /// Symbol belonging to a layout.
    pub symbol: char,
    /// Modifiers required to activate the layer.
    pub modifiers: Vec<LayerKeyIndex>,
    /// Whether the key is excluded from permutation during optimization.
    pub is_fixed: bool,
    /// Whether the symbol itself is used as a modifier.
    pub is_modifier: bool,
    /// The position of this layer key's physical key, for locating the
    /// base-layer sibling.
    pub key_index: KeyIndex,
}

impl LayerKey {
    pub fn new(
        layer: usize,
        key: Key,
        symbol: char,
        modifiers: Vec<LayerKeyIndex>,
        is_fixed: bool,
        is_modifier: bool,
        key_index: KeyIndex,
    ) -> (r: Self)
        ensures
            r.layer == layer,
            r.key == key,
            r.symbol == symbol,
            r.modifiers@ == modifiers@,
            r.is_fixed == is_fixed,
            r.is_modifier == is_modifier,
            r.key_index == key_index,
    {
        Self { layer, key, key_index, symbol, modifiers, is_fixed, is_modifier }
    }
}

/// What symbol resolution reads of one layer key.
pub open spec fn lk_entry(lk: LayerKey) -> ResEntry {
    (lk.symbol, lk.key.cost, lk.layer)
}

/// The modifier symbols declared for one layer, by the hand that holds
/// them.
#[derive(Debug, Clone, PartialEq)]
pub struct HandModifiers {
    pub left: Vec<char>,
    pub right: Vec<char>,
}

/// The modifier symbols of `hm` for one hand.
pub open spec fn hand_mods(hm: HandModifiers, h: Hand) -> Seq<char> {
    match h {
        Hand::Left => hm.left@,
        Hand::Right => hm.right@,
    }
}

/// Why a layout could not be built from its configuration.
#[derive(Debug, Clone, PartialEq, Eq)]
pub enum LayoutError {
    /// Key symbols, keyboard keys and the fixed-key mask differ in length.
    DimensionMismatch,
    /// Some key has no symbol on any layer.
    EmptyKey,
    /// More layer keys than a [`LayerKeyIndex`] can address.
    TooManyLayerKeys,
    /// A declared modifier symbol is not producible by the layout.
    UnsupportedModifier(char),
    /// A genome's symbols do not match the declared alphabet.
    InvalidSymbols,
}

/// Cost of a layer that may be missing from the table: 0 if undefined.
pub open spec fn layer_cost_spec(costs: Seq<u64>, layer: int) -> u64 {
    if 0 <= layer < costs.len() {
        costs[layer]
    } else {
        0
    }
}

/// The total cost of producing a resolution entry: its key's cost plus
/// its layer's cost.
pub open spec fn entry_cost(e: ResEntry, costs: Seq<u64>) -> int {
    sat_add_spec(e.1 as int, layer_cost_spec(costs, e.2 as int) as int)
}

/// Whether candidate `cand` is a better representation of a symbol than
/// the current choice `cur`: strictly cheaper, or of nearly equal cost
/// (within [`COST_TOLERANCE`]) on a lower layer.
pub open spec fn resolution_better(cand: ResEntry, cur: ResEntry, costs: Seq<u64>) -> bool {
    let cc = entry_cost(cand, costs);
    let uc = entry_cost(cur, costs);
    ||| cc < uc
    ||| (-(COST_TOLERANCE as int) < cc - uc < COST_TOLERANCE as int && cand.2 < cur.2)
}

/// The symbol resolution map over the first `n` entries: first
/// occurrence wins unless a later one is [`resolution_better`].
pub open spec fn key_map_prefix(es: Seq<ResEntry>, costs: Seq<u64>, n: int) -> Map<
    char,
    LayerKeyIndex,
>
    decreases n,
{
    if n <= 0 {
        Map::empty()
    } else {
        let m = key_map_prefix(es, costs, n - 1);
        let e = es[n - 1];
        if !m.contains_key(e.0) {
            m.insert(e.0, (n - 1) as LayerKeyIndex)
        } else if resolution_better(e, es[m[e.0] as int], costs) {
            m.insert(e.0, (n - 1) as LayerKeyIndex)
        } else {
            m
        }
    }
}

/// The symbol resolution map of a whole entry sequence.
pub open spec fn key_map_spec(es: Seq<ResEntry>, costs: Seq<u64>) -> Map<char, LayerKeyIndex> {
    key_map_prefix(es, costs, es.len() as int)
}

/// Number of layer keys contributed by the first `i` keys.
pub open spec fn flat_count(kc: Seq<Vec<char>>, i: int) -> int
    decreases i,
{
    if i <= 0 {
        0
    } else {
        flat_count(kc, i - 1) + kc[i - 1]@.len()
    }
}

/// The resolution entries derived from a configuration, in flat
/// key-major order.
pub open spec fn config_entries(kc: Seq<Vec<char>>, keys: Seq<Key>) -> Seq<ResEntry> {
    Seq::new(
        flat_count(kc, kc.len() as int) as nat,
        |k: int|
            {
                let (i, j) = flat_decompose(kc, k);
                (kc[i]@[j], keys[i].cost, j as usize)
            },
    )
}

/// The (key, layer) pair a flat index falls into, scanning keys from
/// position `i` on.
pub open spec fn flat_decompose_from(kc: Seq<Vec<char>>, i: int, k: int) -> (int, int)
    decreases kc.len() - i,
{
    if i < 0 || i >= kc.len() {
        (i, k)
    } else if k < kc[i]@.len() {
        (i, k)
    } else {
        flat_decompose_from(kc, i + 1, k - kc[i]@.len())
    }
}

/// The (key, layer) pair a flat layer key index falls into.
pub open spec fn flat_decompose(kc: Seq<Vec<char>>, k: int) -> (int, int) {
    flat_decompose_from(kc, 0, k)
}

/// The symbol resolution map that a configuration gives rise to.
pub open spec fn config_key_map(kc: Seq<Vec<char>>, keys: Seq<Key>, costs: Seq<u64>) -> Map<
    char,
    LayerKeyIndex,
> {
    key_map_spec(config_entries(kc, keys), costs)
}

/// Whether layer key `k` is declared as a modifier on some layer for
/// some hand, resolving modifier symbols through `km`.
pub open spec fn is_declared_modifier(
    k: int,
    mods: Seq<HandModifiers>,
    km: Map<char, LayerKeyIndex>,
) -> bool {
    exists|li: int, h: Hand, j: int|
        0 <= li < mods.len() && 0 <= j < hand_mods(mods[li], h).len() && km.contains_key(
            #[trigger] hand_mods(mods[li], h)[j],
        ) && km[hand_mods(mods[li], h)[j]] == k
}

/// The modifier chain of a layer key: the declared modifiers of its
/// layer for the hand opposite its own key, resolved through `km`;
/// empty on the base layer and on layers without modifier declarations.
pub open spec fn modifier_chain(
    lk: LayerKey,
    mods: Seq<HandModifiers>,
    km: Map<char, LayerKeyIndex>,
) -> Seq<LayerKeyIndex> {
    if 1 <= lk.layer && lk.layer <= mods.len() {
        hand_mods(mods[lk.layer - 1], lk.key.hand.other_spec()).map_values(|c: char| km[c])
    } else {
        Seq::empty()
    }
}

/// Every declared modifier symbol resolves through `km`.
pub open spec fn mods_resolvable(mods: Seq<HandModifiers>, km: Map<char, LayerKeyIndex>) -> bool {
    forall|li: int, h: Hand, j: int|
        0 <= li < mods.len() && 0 <= j < hand_mods(mods[li], h).len() ==> km.contains_key(
            #[trigger] hand_mods(mods[li], h)[j],
        )
}

/// The dimensions of a layout configuration are consistent: one symbol
/// list and one fixed flag per key, at least one layer per key, and not
/// more layer keys than a [`LayerKeyIndex`] can address.
pub open spec fn dims_ok(kc: Seq<Vec<char>>, nkeys: int, nfixed: int) -> bool {
    &&& kc.len() == nkeys
    &&& kc.len() == nfixed
    &&& (forall|i: int| 0 <= i < kc.len() ==> (#[trigger] kc[i]@).len() >= 1)
    &&& flat_count(kc, kc.len() as int) <= u16::MAX as int + 1
}

/// A collection of symbols (chars) that can be generated with a keyboard,
/// each resolved to the key, layer and modifiers that produce it.
#[derive(Debug, Clone)]
pub struct Layout {
    /// All layer keys of the layout, keys ordered as on the keyboard,
    /// layers of one key adjacent and in layer order.
    pub layerkeys: Vec<LayerKey>,
    /// Per key, the layer key indices of its layers, in layer order.
    pub key_layers: Vec<Vec<LayerKeyIndex>>,
    /// The symbol resolution table.
    pub key_map: rustc_hash::FxHashMap<char, LayerKeyIndex>,
    /// Per-layer cost weights.
    pub layer_costs: Vec<u64>,
}

impl Layout {
    /// The per-key lists of layer key indices.
    pub open spec fn key_layers_seq(self) -> Seq<Seq<LayerKeyIndex>> {
        self.key_layers@.map_values(|v: Vec<LayerKeyIndex>| v@)
    }

    /// The symbol resolution table, as an abstract map.
    pub open spec fn key_map_view(self) -> Map<char, LayerKeyIndex> {
        self.key_map@
    }

    /// The per-layer cost weights, as a sequence.
    pub open spec fn layer_costs_seq(self) -> Seq<u64> {
        self.layer_costs@
    }

    /// Number of physical keys of the layout.
    pub open spec fn num_keys(self) -> int {
        self.key_layers_seq().len() as int
    }

    /// What symbol resolution reads of this layout's layer keys.
    pub open spec fn resolution_entries(self) -> Seq<ResEntry> {
        self.layerkeys@.map_values(|lk: LayerKey| lk_entry(lk))
    }

    /// Internal consistency of a layout: every key has a base layer, the
    /// key/layer table and the layer keys' back references form a
    /// bijection, all stored indices are in range, and the symbol map is
    /// exactly the resolution of the layer keys.
    pub open spec fn wf(self) -> bool {
        &&& self.layerkeys@.len() <= u16::MAX as int + 1
        &&& (forall|i: int|
            0 <= i < self.num_keys() ==> (#[trigger] self.key_layers_seq()[i]).len() >= 1)
        &&& (forall|i: int, j: int|
            #![trigger self.key_layers_seq()[i][j]]
            0 <= i < self.num_keys() && 0 <= j < self.key_layers_seq()[i].len() ==> {
                let k = self.key_layers_seq()[i][j];
                &&& (k as int) < self.layerkeys@.len()
                &&& self.layerkeys@[k as int].key_index == i
                &&& self.layerkeys@[k as int].layer == j
            })
        &&& (forall|k: int|
            #![trigger self.layerkeys@[k]]
            0 <= k < self.layerkeys@.len() ==> {
                let lk = self.layerkeys@[k];
                &&& (lk.key_index as int) < self.num_keys()
                &&& (lk.layer as int) < self.key_layers_seq()[lk.key_index as int].len()
                &&& self.key_layers_seq()[lk.key_index as int][lk.layer as int] == k
                &&& (forall|m: int|
                    0 <= m < lk.modifiers@.len() ==> (#[trigger] lk.modifiers@[m] as int)
                        < self.layerkeys@.len())
            })
        &&& (forall|c: char|
            self.key_map_view().contains_key(c) ==> (#[trigger] self.key_map_view()[c] as int)
                < self.layerkeys@.len())
        &&& self.key_map_view() == key_map_spec(self.resolution_entries(), self.layer_costs_seq())
    }

    /// Build a layout from per-key per-layer symbol assignments, a
    /// fixed-key mask, the keyboard, modifier declarations per layer and
    /// per-layer cost weights.
    ///
    /// Fails exactly when the dimensions are inconsistent or a declared
    /// modifier symbol cannot be produced by the layout.
    pub fn new(
        key_chars: Vec<Vec<char>>,
        fixed_keys: Vec<bool>,
        keyboard: &Keyboard,
        modifiers: Vec<HandModifiers>,
        layer_costs: Vec<u64>,
    ) -> (r: Result<Layout, LayoutError>)
        ensures
            match r {
                Ok(l) => {
                    &&& dims_ok(key_chars@, keyboard.keys@.len() as int, fixed_keys@.len() as int)
                    &&& l.wf()
                    &&& l.layer_costs_seq() == layer_costs@
                    &&& l.num_keys() == key_chars@.len()
                    &&& (forall|i: int|
                        0 <= i < key_chars@.len() ==> (#[trigger] l.key_layers_seq()[i]).len()
                            == key_chars@[i]@.len())
                    &&& (forall|i: int, j: int|
                        #![trigger l.key_layers_seq()[i][j]]
                        0 <= i < key_chars@.len() && 0 <= j < key_chars@[i]@.len()
                            ==> l.key_layers_seq()[i][j] as int == flat_count(key_chars@, i) + j)
                    &&& l.layerkeys@.len() == flat_count(key_chars@, key_chars@.len() as int)
                    &&& l.key_map_view() == config_key_map(
                        key_chars@,
                        keyboard.keys@,
                        layer_costs@,
                    )
                    &&& mods_resolvable(modifiers@, l.key_map_view())
                    &&& (forall|k: int|
                        #![trigger l.layerkeys@[k]]
                        0 <= k < l.layerkeys@.len() ==> final_entry_ok(
                            l.layerkeys@[k],
                            k,
                            key_chars@,
                            keyboard.keys@,
                            fixed_keys@,
                            modifiers@,
                            l.key_map_view(),
                        ))
                },
                Err(LayoutError::DimensionMismatch) => key_chars@.len() != keyboard.keys@.len()
                    || key_chars@.len() != fixed_keys@.len(),
                Err(LayoutError::EmptyKey) => exists|i: int|
                    0 <= i < key_chars@.len() && (#[trigger] key_chars@[i]@).len() == 0,
                Err(LayoutError::TooManyLayerKeys) => flat_count(
                    key_chars@,
                    key_chars@.len() as int,
                ) > u16::MAX as int + 1,
                Err(LayoutError::UnsupportedModifier(c)) => {
                    &&& !config_key_map(key_chars@, keyboard.keys@, layer_costs@).contains_key(c)
                    &&& (exists|li: int, h: Hand, j: int|
                        0 <= li < modifiers@.len() && 0 <= j < hand_mods(modifiers@[li], h).len()
                            && #[trigger] hand_mods(modifiers@[li], h)[j] == c)
                },
                Err(LayoutError::InvalidSymbols) => false,
            },
            (r is Err) <==> !(dims_ok(key_chars@, keyboard.keys@.len() as int, fixed_keys@.len() as int)
                && mods_resolvable(
                modifiers@,
                config_key_map(key_chars@, keyboard.keys@, layer_costs@),
            )),
    {
        let nkeys = key_chars.len();
        if nkeys != keyboard.keys.len() || nkeys != fixed_keys.len() {
            return Err(LayoutError::DimensionMismatch);
        }
        // Count the layer keys; reject empty keys and index overflow.
        let mut total: usize = 0;
        let mut i: usize = 0;
        while i < nkeys
            invariant
                0 <= i <= nkeys,
                nkeys == key_chars@.len(),
                total == flat_count(key_chars@, i as int),
                total <= u16::MAX as int + 1,
                forall|i2: int| 0 <= i2 < i ==> (#[trigger] key_chars@[i2]@).len() >= 1,
            decreases nkeys - i,
        {
            let n_l = key_chars[i].len();
            if n_l == 0 {
                return Err(LayoutError::EmptyKey);
            }
            if n_l > 65536 - total {
                proof {
                    lemma_flat_count_mono(key_chars@, i as int + 1, nkeys as int);
                }
                return Err(LayoutError::TooManyLayerKeys);
            }
            total = total + n_l;
            i = i + 1;
        }
        let ghost kc = key_chars@;
        let ghost n_total = flat_count(kc, nkeys as int);
        proof {
            lemma_flat_count_lower(kc, nkeys as int);
        }

        // Base pass: one layer key per (key, layer), without modifier
        // information.
        let mut base: Vec<LayerKey> = Vec::new();
        let mut key_layers: Vec<Vec<LayerKeyIndex>> = Vec::new();
        let mut i: usize = 0;
        while i < nkeys
            invariant
                0 <= i <= nkeys,
                nkeys == key_chars@.len(),
                nkeys == keyboard.keys@.len(),
                nkeys == fixed_keys@.len(),
                kc == key_chars@,
                n_total == flat_count(kc, nkeys as int),
                n_total <= u16::MAX as int + 1,
                nkeys <= n_total,
                forall|i2: int| 0 <= i2 < nkeys ==> (#[trigger] kc[i2]@).len() >= 1,
                base@.len() == flat_count(kc, i as int),
                key_layers@.len() == i,
                forall|i2: int| 0 <= i2 < i ==> (#[trigger] key_layers@[i2]@).len() == kc[i2]@.len(),
                forall|i2: int, j2: int|
                    #![trigger key_layers@[i2]@[j2]]
                    0 <= i2 < i && 0 <= j2 < kc[i2]@.len() ==> key_layers@[i2]@[j2] as int
                        == flat_count(kc, i2) + j2,
                forall|k2: int|
                    #![trigger base@[k2]]
                    0 <= k2 < base@.len() ==> base_entry_ok(
                        base@[k2],
                        k2,
                        kc,
                        keyboard.keys@,
                        fixed_keys@,
                    ),
            decreases nkeys - i,
        {
            proof {
                lemma_flat_count_mono(kc, i as int + 1, nkeys as int);
            }
            let n_l = key_chars[i].len();
            let mut layer_indices: Vec<LayerKeyIndex> = Vec::new();
            let mut j: usize = 0;
            while j < n_l
                invariant
                    0 <= j <= n_l,
                    0 <= i < nkeys,
                    nkeys == key_chars@.len(),
                    nkeys == keyboard.keys@.len(),
                    nkeys == fixed_keys@.len(),
                    kc == key_chars@,
                    n_l == kc[i as int]@.len(),
                    flat_count(kc, i as int + 1) <= u16::MAX as int + 1,
                    nkeys <= n_total,
                    n_total <= u16::MAX as int + 1,
                    base@.len() == flat_count(kc, i as int) + j,
                    layer_indices@.len() == j,
                    forall|j2: int|
                        #![trigger layer_indices@[j2]]
                        0 <= j2 < j ==> layer_indices@[j2] as int == flat_count(kc, i as int) + j2,
                    forall|k2: int|
                        #![trigger base@[k2]]
                        0 <= k2 < base@.len() ==> base_entry_ok(
                            base@[k2],
                            k2,
                            kc,
                            keyboard.keys@,
                            fixed_keys@,
                        ),
                decreases n_l - j,
            {
                proof {
                    lemma_flat_count_mono(kc, i as int, i as int + 1);
                }
                let idx = base.len();
                let sym = key_chars[i][j];
                let bkey = keyboard.keys[i];
                let bfixed = fixed_keys[i];
                let bmods: Vec<LayerKeyIndex> = Vec::new();
                let lk = LayerKey::new(j, bkey, sym, bmods, bfixed, false, i as KeyIndex);
                base.push(lk);
                layer_indices.push(idx as LayerKeyIndex);
                proof {
                    lemma_flat_decompose_correct(kc, i as int, j as int);
                }
                j = j + 1;
            }
            key_layers.push(layer_indices);
            i = i + 1;
        }
        proof {
            lemma_entries_match(base@, kc, keyboard.keys@, fixed_keys@);
        }

        // Symbol resolution: cheapest representation wins, ties go to the
        // lower layer.
        let mut key_map = symbol_map_new();
        let mut k: usize = 0;
        while k < base.len()
            invariant
                0 <= k <= base@.len(),
                base@.len() == n_total,
                n_total <= u16::MAX as int + 1,
                base@.map_values(|lk: LayerKey| lk_entry(lk)) == config_entries(kc, keyboard.keys@),
                key_map@ == key_map_prefix(config_entries(kc, keyboard.keys@), layer_costs@, k as int),
            decreases base@.len() - k,
        {
            proof {
                lemma_key_map_prefix_bounds(config_entries(kc, keyboard.keys@), layer_costs@, k as int);
            }
            let lk_cost = base[k].key.cost;
            let lk_layer = base[k].layer;
            let lk_symbol = base[k].symbol;
            let cand_cost = sat_add(lk_cost, layer_cost_of(&layer_costs, lk_layer));
            let replace = match symbol_map_get(&key_map, lk_symbol) {
                None => true,
                Some(cur) => {
                    let cur_cost = sat_add(
                        base[cur as usize].key.cost,
                        layer_cost_of(&layer_costs, base[cur as usize].layer),
                    );
                    if cand_cost < cur_cost {
                        true
                    } else {
                        cand_cost - cur_cost < COST_TOLERANCE && lk_layer < base[cur as usize].layer
                    }
                },
            };
            if replace {
                symbol_map_insert(&mut key_map, lk_symbol, k as LayerKeyIndex);
            }
            k = k + 1;
        }
        let ghost km = key_map@;
        proof {
            lemma_key_map_prefix_bounds(config_entries(kc, keyboard.keys@), layer_costs@, n_total);
            assert(km == config_key_map(kc, keyboard.keys@, layer_costs@));
        }

        // Resolve the declared modifier symbols and flag the layer keys
        // they name.
        let mut is_mod: Vec<bool> = Vec::new();
        let mut k: usize = 0;
        while k < base.len()
            invariant
                0 <= k <= base@.len(),
                is_mod@.len() == k,
                forall|k2: int| 0 <= k2 < k ==> !(#[trigger] is_mod@[k2]),
            decreases base@.len() - k,
        {
            is_mod.push(false);
            k = k + 1;
        }
        let mut resolved: Vec<(Vec<LayerKeyIndex>, Vec<LayerKeyIndex>)> = Vec::new();
        let mut li: usize = 0;
        while li < modifiers.len()
            invariant
                0 <= li <= modifiers@.len(),
                resolved@.len() == li,
                is_mod@.len() == n_total,
                kc == key_chars@,
                nkeys == key_chars@.len(),
                nkeys == keyboard.keys@.len(),
                nkeys == fixed_keys@.len(),
                n_total == flat_count(kc, nkeys as int),
                km == key_map@,
                km == config_key_map(key_chars@, keyboard.keys@, layer_costs@),
                forall|c: char| km.contains_key(c) ==> (#[trigger] km[c] as int) < n_total,
                forall|li2: int, h: Hand, j: int|
                    0 <= li2 < li && 0 <= j < hand_mods(modifiers@[li2], h).len()
                        ==> km.contains_key(#[trigger] hand_mods(modifiers@[li2], h)[j]),
                forall|li2: int|
                    0 <= li2 < li ==> (#[trigger] resolved@[li2]).0@ == hand_mods(
                        modifiers@[li2],
                        Hand::Left,
                    ).map_values(|c: char| km[c]) && resolved@[li2].1@ == hand_mods(
                        modifiers@[li2],
                        Hand::Right,
                    ).map_values(|c: char| km[c]),
                forall|k2: int|
                    0 <= k2 < n_total ==> ((#[trigger] is_mod@[k2]) <==> is_declared_modifier_upto(
                        k2,
                        modifiers@,
                        km,
                        li as int,
                    )),
            decreases modifiers@.len() - li,
        {
            let ghost pre = is_mod@;
            let left_res = match resolve_mod_list(&key_map, &modifiers[li].left, &mut is_mod) {
                Ok(v) => v,
                Err(e) => {
                    proof {
                        let c = e->UnsupportedModifier_0;
                        let j3 = choose|j3: int|
                            0 <= j3 < modifiers@[li as int].left@.len() && #[trigger] modifiers@[
                            li as int].left@[j3] == c;
                        assert((li as int) < modifiers@.len() && 0 <= j3 < hand_mods(
                            modifiers@[li as int],
                            Hand::Left,
                        ).len() && hand_mods(modifiers@[li as int], Hand::Left)[j3] == c);
                        assert(!km.contains_key(
                            hand_mods(modifiers@[li as int], Hand::Left)[j3],
                        ));
                        assert(km == config_key_map(key_chars@, keyboard.keys@, layer_costs@));
                        assert(!config_key_map(
                            key_chars@,
                            keyboard.keys@,
                            layer_costs@,
                        ).contains_key(c));
                        assert(!mods_resolvable(modifiers@, km));
                    }
                    return Err(e);
                },
            };
            let ghost mid = is_mod@;
            let right_res = match resolve_mod_list(&key_map, &modifiers[li].right, &mut is_mod) {
                Ok(v) => v,
                Err(e) => {
                    proof {
                        let c = e->UnsupportedModifier_0;
                        let j3 = choose|j3: int|
                            0 <= j3 < modifiers@[li as int].right@.len() && #[trigger] modifiers@[
                            li as int].right@[j3] == c;
                        assert((li as int) < modifiers@.len() && 0 <= j3 < hand_mods(
                            modifiers@[li as int],
                            Hand::Right,
                        ).len() && hand_mods(modifiers@[li as int], Hand::Right)[j3] == c);
                        assert(!km.contains_key(
                            hand_mods(modifiers@[li as int], Hand::Right)[j3],
                        ));
                        assert(km == config_key_map(key_chars@, keyboard.keys@, layer_costs@));
                        assert(!config_key_map(
                            key_chars@,
                            keyboard.keys@,
                            layer_costs@,
                        ).contains_key(c));
                        assert(!mods_resolvable(modifiers@, km));
                    }
                    return Err(e);
                },
            };
            resolved.push((left_res, right_res));
            proof {
                let lim = modifiers@[li as int];
                assert forall|k2: int| 0 <= k2 < n_total implies ((#[trigger] is_mod@[k2])
                    <==> is_declared_modifier_upto(k2, modifiers@, km, li as int + 1)) by {
                    if is_mod@[k2] {
                        if mid[k2] {
                            if pre[k2] {
                                let (li3, h3, j3) = choose|li3: int, h3: Hand, j3: int|
                                    0 <= li3 < li && 0 <= j3 < hand_mods(modifiers@[li3], h3).len()
                                        && km.contains_key(hand_mods(modifiers@[li3], h3)[j3])
                                        && km[hand_mods(modifiers@[li3], h3)[j3]] == k2;
                                assert(0 <= li3 < li + 1 && 0 <= j3 < hand_mods(
                                    modifiers@[li3],
                                    h3,
                                ).len() && km.contains_key(hand_mods(modifiers@[li3], h3)[j3])
                                    && km[hand_mods(modifiers@[li3], h3)[j3]] == k2);
                            } else {
                                let j3 = choose|j3: int|
                                    0 <= j3 < lim.left@.len() && km.contains_key(lim.left@[j3])
                                        && km[lim.left@[j3]] == k2;
                                assert(hand_mods(lim, Hand::Left)[j3] == lim.left@[j3]);
                                assert(0 <= li < li + 1 && 0 <= j3 < hand_mods(
                                    lim,
                                    Hand::Left,
                                ).len() && km.contains_key(hand_mods(lim, Hand::Left)[j3]) && km[
                                hand_mods(lim, Hand::Left)[j3]] == k2);
                            }
                        } else {
                            let j3 = choose|j3: int|
                                0 <= j3 < lim.right@.len() && km.contains_key(lim.right@[j3])
                                    && km[lim.right@[j3]] == k2;
                            assert(hand_mods(lim, Hand::Right)[j3] == lim.right@[j3]);
                            assert(0 <= li < li + 1 && 0 <= j3 < hand_mods(lim, Hand::Right).len()
                                && km.contains_key(hand_mods(lim, Hand::Right)[j3]) && km[hand_mods(
                                lim,
                                Hand::Right,
                            )[j3]] == k2);
                        }
                    }
                    if is_declared_modifier_upto(k2, modifiers@, km, li as int + 1) {
                        let (li3, h3, j3) = choose|li3: int, h3: Hand, j3: int|
                            0 <= li3 < li + 1 && 0 <= j3 < hand_mods(modifiers@[li3], h3).len()
                                && km.contains_key(hand_mods(modifiers@[li3], h3)[j3]) && km[
                                hand_mods(modifiers@[li3], h3)[j3]] == k2;
                        if li3 < li {
                            assert(is_declared_modifier_upto(k2, modifiers@, km, li as int));
                            assert(pre[k2]);
                        } else {
                            match h3 {
                                Hand::Left => {
                                    assert(hand_mods(lim, Hand::Left)[j3] == lim.left@[j3]);
                                    assert(mid[k2]);
                                },
                                Hand::Right => {
                                    assert(hand_mods(lim, Hand::Right)[j3] == lim.right@[j3]);
                                },
                            }
                        }
                        assert(is_mod@[k2]);
                    }
                }
            }
            li = li + 1;
        }
        proof {
            assert forall|k2: int| 0 <= k2 < n_total implies ((#[trigger] is_mod@[k2])
                <==> is_declared_modifier(k2, modifiers@, km)) by {
                if is_mod@[k2] {
                    let (li3, h3, j3) = choose|li3: int, h3: Hand, j3: int|
                        0 <= li3 < modifiers@.len() && 0 <= j3 < hand_mods(modifiers@[li3], h3).len()
                            && km.contains_key(hand_mods(modifiers@[li3], h3)[j3]) && km[hand_mods(
                            modifiers@[li3],
                            h3,
                        )[j3]] == k2;
                    assert(is_declared_modifier(k2, modifiers@, km));
                }
                if is_declared_modifier(k2, modifiers@, km) {
                    let (li3, h3, j3) = choose|li3: int, h3: Hand, j3: int|
                        0 <= li3 < modifiers@.len() && 0 <= j3 < hand_mods(modifiers@[li3], h3).len()
                            && km.contains_key(hand_mods(modifiers@[li3], h3)[j3]) && km[hand_mods(
                            modifiers@[li3],
                            h3,
                        )[j3]] == k2;
                    assert(is_declared_modifier_upto(k2, modifiers@, km, modifiers@.len() as int));
                }
            }
        }

        // Final pass: attach modifier chains and flags.
        let mut layerkeys: Vec<LayerKey> = Vec::new();
        let mut i: usize = 0;
        while i < nkeys
            invariant
                0 <= i <= nkeys,
                nkeys == key_chars@.len(),
                nkeys == keyboard.keys@.len(),
                nkeys == fixed_keys@.len(),
                kc == key_chars@,
                n_total == flat_count(kc, nkeys as int),
                n_total <= u16::MAX as int + 1,
                nkeys <= n_total,
                km == key_map@,
                is_mod@.len() == n_total,
                forall|i2: int| 0 <= i2 < nkeys ==> (#[trigger] kc[i2]@).len() >= 1,
                forall|k2: int|
                    0 <= k2 < n_total ==> ((#[trigger] is_mod@[k2]) <==> is_declared_modifier(
                        k2,
                        modifiers@,
                        km,
                    )),
                resolved@.len() == modifiers@.len(),
                forall|li2: int|
                    0 <= li2 < modifiers@.len() ==> (#[trigger] resolved@[li2]).0@ == hand_mods(
                        modifiers@[li2],
                        Hand::Left,
                    ).map_values(|c: char| km[c]) && resolved@[li2].1@ == hand_mods(
                        modifiers@[li2],
                        Hand::Right,
                    ).map_values(|c: char| km[c]),
                layerkeys@.len() == flat_count(kc, i as int),
                forall|k2: int|
                    #![trigger layerkeys@[k2]]
                    0 <= k2 < layerkeys@.len() ==> final_entry_ok(
                        layerkeys@[k2],
                        k2,
                        kc,
                        keyboard.keys@,
                        fixed_keys@,
                        modifiers@,
                        km,
                    ),
            decreases nkeys - i,
        {
            proof {
                lemma_flat_count_mono(kc, i as int + 1, nkeys as int);
            }
            let n_l = key_chars[i].len();
            let key = keyboard.keys[i];
            let fixed = fixed_keys[i];
            let mut j: usize = 0;
            while j < n_l
                invariant
                    0 <= j <= n_l,
                    0 <= i < nkeys,
                    nkeys == key_chars@.len(),
                    nkeys == keyboard.keys@.len(),
                    nkeys == fixed_keys@.len(),
                    kc == key_chars@,
                    n_l == kc[i as int]@.len(),
                    n_total == flat_count(kc, nkeys as int),
                    n_total <= u16::MAX as int + 1,
                    nkeys <= n_total,
                    flat_count(kc, i as int + 1) <= n_total,
                    km == key_map@,
                    is_mod@.len() == n_total,
                    key == keyboard.keys@[i as int],
                    fixed == fixed_keys@[i as int],
                    forall|k2: int|
                        0 <= k2 < n_total ==> ((#[trigger] is_mod@[k2]) <==> is_declared_modifier(
                            k2,
                            modifiers@,
                            km,
                        )),
                    resolved@.len() == modifiers@.len(),
                    forall|li2: int|
                        0 <= li2 < modifiers@.len() ==> (#[trigger] resolved@[li2]).0@ == hand_mods(
                            modifiers@[li2],
                            Hand::Left,
                        ).map_values(|c: char| km[c]) && resolved@[li2].1@ == hand_mods(
                            modifiers@[li2],
                            Hand::Right,
                        ).map_values(|c: char| km[c]),
                    layerkeys@.len() == flat_count(kc, i as int) + j,
                    forall|k2: int|
                        #![trigger layerkeys@[k2]]
                        0 <= k2 < layerkeys@.len() ==> final_entry_ok(
                            layerkeys@[k2],
                            k2,
                            kc,
                            keyboard.keys@,
                            fixed_keys@,
                            modifiers@,
                            km,
                        ),
                decreases n_l - j,
            {
                proof {
                    lemma_flat_count_mono(kc, i as int, i as int + 1);
                }
                let mods: Vec<LayerKeyIndex> = if j >= 1 && j <= modifiers.len() {
                    match key.hand {
                        Hand::Left => clone_indices(&resolved[j - 1].1),
                        Hand::Right => clone_indices(&resolved[j - 1].0),
                    }
                } else {
                    Vec::new()
                };
                let k_idx = layerkeys.len();
                let sym = key_chars[i][j];
                let flag = is_mod[k_idx];
                let lk = LayerKey::new(j, key, sym, mods, fixed, flag, i as KeyIndex);
                layerkeys.push(lk);
                proof {
                    lemma_flat_decompose_correct(kc, i as int, j as int);
                    let k2 = flat_count(kc, i as int) + j;
                    let lk = layerkeys@[k2];
                    assert(lk.modifiers@ == modifier_chain(lk, modifiers@, km));
                    assert(final_entry_ok(
                        layerkeys@[k2],
                        k2,
                        kc,
                        keyboard.keys@,
                        fixed_keys@,
                        modifiers@,
                        km,
                    ));
                }
                j = j + 1;
            }
            i = i + 1;
        }

        proof {
            lemma_entries_match(layerkeys@, kc, keyboard.keys@, fixed_keys@);
        }
        let l = Layout { layerkeys, key_layers, key_map, layer_costs };
        proof {
            assert forall|i2: int| 0 <= i2 < l.num_keys() implies #[trigger] l.key_layers_seq()[i2]
                == l.key_layers@[i2]@ by {}
            assert(l.resolution_entries() == config_entries(kc, keyboard.keys@));
            assert forall|i2: int, j2: int|
                0 <= i2 < l.num_keys() && 0 <= j2 < l.key_layers_seq()[i2].len() implies {
                let k2 = #[trigger] l.key_layers_seq()[i2][j2];
                &&& (k2 as int) < l.layerkeys@.len()
                &&& l.layerkeys@[k2 as int].key_index == i2
                &&& l.layerkeys@[k2 as int].layer == j2
            } by {
                lemma_flat_count_mono(kc, i2 + 1, nkeys as int);
                lemma_flat_decompose_correct(kc, i2, j2);
            }
            assert forall|k2: int| 0 <= k2 < l.layerkeys@.len() implies {
                let lk = #[trigger] l.layerkeys@[k2];
                &&& (lk.key_index as int) < l.num_keys()
                &&& (lk.layer as int) < l.key_layers_seq()[lk.key_index as int].len()
                &&& l.key_layers_seq()[lk.key_index as int][lk.layer as int] == k2
                &&& (forall|m: int|
                    0 <= m < lk.modifiers@.len() ==> (#[trigger] lk.modifiers@[m] as int)
                        < l.layerkeys@.len())
            } by {
                lemma_flat_decompose_range(kc, nkeys as int, k2);
                let (i2, j2) = flat_decompose(kc, k2);
                assert(final_entry_ok(
                    l.layerkeys@[k2],
                    k2,
                    kc,
                    keyboard.keys@,
                    fixed_keys@,
                    modifiers@,
                    km,
                ));
                lemma_flat_count_mono(kc, i2 + 1, nkeys as int);
                assert forall|m: int| 0 <= m < l.layerkeys@[k2].modifiers@.len() implies (
                #[trigger] l.layerkeys@[k2].modifiers@[m] as int) < l.layerkeys@.len() by {
                    let lk = l.layerkeys@[k2];
                    if 1 <= lk.layer && lk.layer <= modifiers@.len() {
                        let cs = hand_mods(modifiers@[lk.layer - 1], lk.key.hand.other_spec());
                        assert(lk.modifiers@[m] == km[cs[m]]);
                        assert(km.contains_key(cs[m]));
                    }
                }
            }
        }
        Ok(l)
    }

    /// The layer key at a given index.
    pub fn get_layerkey(&self, layerkey_index: &LayerKeyIndex) -> (r: &LayerKey)
        requires
            (*layerkey_index as int) < self.layerkeys@.len(),
        ensures
            *r == self.layerkeys@[*layerkey_index as int],
    {
        &self.layerkeys[*layerkey_index as usize]
    }

    /// The layer key producing a symbol, if the layout can generate it.
    pub fn get_layerkey_for_symbol(&self, c: &char) -> (r: Option<&LayerKey>)
        requires
            self.wf(),
        ensures
            match r {
                Some(lk) => self.key_map_view().contains_key(*c) && *lk == self.layerkeys@[
                    self.key_map_view()[*c] as int],
                None => !self.key_map_view().contains_key(*c),
            },
    {
        match symbol_map_get(&self.key_map, *c) {
            Some(idx) => Some(&self.layerkeys[idx as usize]),
            None => None,
        }
    }

    /// The index of the layer key producing a symbol, if any.
    pub fn get_layerkey_index_for_symbol(&self, c: &char) -> (r: Option<LayerKeyIndex>)
        ensures
            r == (if self.key_map_view().contains_key(*c) {
                Some(self.key_map_view()[*c])
            } else {
                None::<LayerKeyIndex>
            }),
    {
        symbol_map_get(&self.key_map, *c)
    }

    /// The base-layer sibling of a layer key: the index of the layer-0
    /// key on the same physical key.
    pub fn get_base_layerkey_index(&self, layerkey_index: &LayerKeyIndex) -> (r: LayerKeyIndex)
        requires
            self.wf(),
            (*layerkey_index as int) < self.layerkeys@.len(),
        ensures
            r == self.base_index_spec(*layerkey_index as int),
    {
        let ki = self.layerkeys[*layerkey_index as usize].key_index;
        self.key_layers[ki as usize][0]
    }

    /// The base-layer sibling index of layer key `k`.
    pub open spec fn base_index_spec(self, k: int) -> LayerKeyIndex {
        self.key_layers_seq()[self.layerkeys@[k].key_index as int][0]
    }

    /// The base-layer sibling and the modifier chain of a layer key.
    pub fn resolve_modifiers(&self, k: &LayerKeyIndex) -> (r: (LayerKeyIndex, Vec<LayerKeyIndex>))
        requires
            self.wf(),
            (*k as int) < self.layerkeys@.len(),
        ensures
            r.0 == self.base_index_spec(*k as int),
            r.1@ == self.layerkeys@[*k as int].modifiers@,
    {
        let base = self.get_base_layerkey_index(k);
        let mods = clone_indices(&self.layerkeys[*k as usize].modifiers);
        (base, mods)
    }

    /// The cost associated with a layer; 0 if the layer has no entry.
    pub fn get_layer_cost(&self, layer: usize) -> (r: u64)
        ensures
            r == layer_cost_spec(self.layer_costs_seq(), layer as int),
    {
        layer_cost_of(&self.layer_costs, layer)
    }

    /// The base-layer symbols of the first `i` non-fixed keys, in key
    /// order.
    pub open spec fn nonfixed_symbols_prefix(self, i: int) -> Seq<char>
        decreases i,
    {
        if i <= 0 {
            Seq::empty()
        } else {
            let s = self.nonfixed_symbols_prefix(i - 1);
            let lk = self.layerkeys@[self.key_layers_seq()[i - 1][0] as int];
            if lk.is_fixed {
                s
            } else {
                s.push(lk.symbol)
            }
        }
    }

    /// All base-layer symbols of the non-fixed keys, in key order.
    pub open spec fn nonfixed_symbols(self) -> Seq<char> {
        self.nonfixed_symbols_prefix(self.num_keys())
    }

    /// Concatenate the non-fixed keys' base symbols into a string: the
    /// canonical human-visible identifier of the layout.
    pub fn as_text(&self) -> (r: String)
        requires
            self.wf(),
        ensures
            r@ == self.nonfixed_symbols(),
    {
        let mut out: Vec<char> = Vec::new();
        let mut i: usize = 0;
        while i < self.key_layers.len()
            invariant
                self.wf(),
                0 <= i <= self.num_keys(),
                out@ == self.nonfixed_symbols_prefix(i as int),
            decreases self.num_keys() - i,
        {
            proof {
                assert(self.key_layers_seq()[i as int] == self.key_layers@[i as int]@);
            }
            let k0 = self.key_layers[i][0];
            let lk = &self.layerkeys[k0 as usize];
            if !lk.is_fixed {
                out.push(lk.symbol);
            }
            i = i + 1;
        }
        chars_to_string(&out)
    }

    /// The plotted symbol of key `i` on a layer: the key's symbol for
    /// that layer, or for its highest layer when it has fewer.
    pub open spec fn plot_symbol_at(self, layer: int, i: int) -> char {
        let ks = self.key_layers_seq()[i];
        let j = if layer < ks.len() {
            layer
        } else {
            ks.len() - 1
        };
        plot_char_spec(self.layerkeys@[ks[j] as int].symbol)
    }

    /// The plotted symbols of the first `i` keys, space separated.
    pub open spec fn plot_row_prefix(self, layer: int, i: int) -> Seq<char>
        decreases i,
    {
        if i <= 0 {
            Seq::empty()
        } else {
            let s = self.plot_row_prefix(layer, i - 1);
            let s2 = if i - 1 > 0 {
                s.push(' ')
            } else {
                s
            };
            s2.push(self.plot_symbol_at(layer, i - 1))
        }
    }

    /// Plot a textual representation of a layer: one symbol per key,
    /// space separated, control characters replaced by visible
    /// stand-ins.  Geometry-aware rendering belongs to the keyboard
    /// configuration outside the core.
    pub fn plot_layer(&self, layer: usize) -> (r: String)
        requires
            self.wf(),
        ensures
            r@ == self.plot_row_prefix(layer as int, self.num_keys()),
    {
        let mut out: Vec<char> = Vec::new();
        let mut i: usize = 0;
        while i < self.key_layers.len()
            invariant
                self.wf(),
                0 <= i <= self.num_keys(),
                out@ == self.plot_row_prefix(layer as int, i as int),
            decreases self.num_keys() - i,
        {
            proof {
                assert(self.key_layers_seq()[i as int] == self.key_layers@[i as int]@);
            }
            if i > 0 {
                out.push(' ');
            }
            let n_l = self.key_layers[i].len();
            let j = if layer < n_l {
                layer
            } else {
                n_l - 1
            };
            let k = self.key_layers[i][j];
            let sym = plot_char(self.layerkeys[k as usize].symbol);
            out.push(sym);
            i = i + 1;
        }
        chars_to_string(&out)
    }

    /// Plot the base (first) layer.
    pub fn plot(&self) -> (r: String)
        requires
            self.wf(),
        ensures
            r@ == self.plot_row_prefix(0, self.num_keys()),
    {
        self.plot_layer(0)
    }

    /// The plotted non-fixed base symbols of the first `i` keys, space
    /// separated.
    pub open spec fn plot_compact_prefix(self, i: int) -> Seq<char>
        decreases i,
    {
        if i <= 0 {
            Seq::empty()
        } else {
            let s = self.plot_compact_prefix(i - 1);
            let lk = self.layerkeys@[self.key_layers_seq()[i - 1][0] as int];
            if lk.is_fixed {
                s
            } else if s.len() == 0 {
                seq![lk.symbol]
            } else {
                s.push(' ').push(lk.symbol)
            }
        }
    }

    /// Plot a compact representation: only the non-fixed keys' base
    /// symbols, space separated.
    pub fn plot_compact(&self) -> (r: String)
        requires
            self.wf(),
        ensures
            r@ == self.plot_compact_prefix(self.num_keys()),
    {
        let mut out: Vec<char> = Vec::new();
        let mut i: usize = 0;
        while i < self.key_layers.len()
            invariant
                self.wf(),
                0 <= i <= self.num_keys(),
                out@ == self.plot_compact_prefix(i as int),
            decreases self.num_keys() - i,
        {
            proof {
                assert(self.key_layers_seq()[i as int] == self.key_layers@[i as int]@);
            }
            let k0 = self.key_layers[i][0];
            let lk = &self.layerkeys[k0 as usize];
            if !lk.is_fixed {
                if out.len() > 0 {
                    out.push(' ');
                }
                out.push(lk.symbol);
            }
            i = i + 1;
        }
        chars_to_string(&out)
    }
}

/// A symbol as it is plotted: control characters become visible
/// stand-ins.
pub open spec fn plot_char_spec(c: char) -> char {
    if c == '\n' {
        '\u{23ce}'
    } else if c == '\t' {
        '\u{21e5}'
    } else if c == '\u{2421}' {
        ' '
    } else {
        c
    }
}

/// The plotted stand-in of a symbol.
pub fn plot_char(c: char) -> (r: char)
    ensures
        r == plot_char_spec(c),
{
    if c == '\n' {
        '\u{23ce}'
    } else if c == '\t' {
        '\u{21e5}'
    } else if c == '\u{2421}' {
        ' '
    } else {
        c
    }
}

/// Fieldwise characterization of a freshly built base layer key.
pub open spec fn lk_fields_match(
    lk: LayerKey,
    layer: int,
    key: Key,
    symbol: char,
    is_fixed: bool,
    key_index: int,
) -> bool {
    &&& lk.layer == layer
    &&& lk.key == key
    &&& lk.symbol == symbol
    &&& lk.is_fixed == is_fixed
    &&& lk.key_index == key_index
}

/// Fieldwise characterization of a finished layer key, modifier chain
/// and flag included.
pub open spec fn full_lk_match(
    lk: LayerKey,
    k: int,
    layer: int,
    key: Key,
    symbol: char,
    is_fixed: bool,
    key_index: int,
    mods: Seq<HandModifiers>,
    km: Map<char, LayerKeyIndex>,
) -> bool {
    &&& lk_fields_match(lk, layer, key, symbol, is_fixed, key_index)
    &&& lk.is_modifier == is_declared_modifier(k, mods, km)
    &&& lk.modifiers@ == modifier_chain(lk, mods, km)
}

/// A freshly built base layer key matches its flat position.
pub open spec fn base_entry_ok(
    lk: LayerKey,
    k: int,
    kc: Seq<Vec<char>>,
    keys: Seq<Key>,
    fixed: Seq<bool>,
) -> bool {
    let (i, j) = flat_decompose(kc, k);
    lk_fields_match(lk, j, keys[i], kc[i]@[j], fixed[i], i)
}

/// A finished layer key matches its flat position, modifier chain and
/// flag included.
pub open spec fn final_entry_ok(
    lk: LayerKey,
    k: int,
    kc: Seq<Vec<char>>,
    keys: Seq<Key>,
    fixed: Seq<bool>,
    mods: Seq<HandModifiers>,
    km: Map<char, LayerKeyIndex>,
) -> bool {
    let (i, j) = flat_decompose(kc, k);
    &&& lk_fields_match(lk, j, keys[i], kc[i]@[j], fixed[i], i)
    &&& lk.is_modifier == is_declared_modifier(k, mods, km)
    &&& lk.modifiers@ == modifier_chain(lk, mods, km)
}

/// Number of non-fixed keys among the first `i` keys of the layout.
pub open spec fn nonfixed_count(l: Layout, i: int) -> int
    decreases i,
{
    if i <= 0 {
        0
    } else {
        nonfixed_count(l, i - 1) + if l.layerkeys@[l.key_layers_seq()[i - 1][0] as int].is_fixed {
            0int
        } else {
            1int
        }
    }
}

/// The text form of a layout is exactly one symbol per non-fixed key:
/// its length equals the number of non-fixed key positions.
pub proof fn lemma_as_text_length(l: Layout, i: int)
    ensures
        l.nonfixed_symbols_prefix(i).len() == nonfixed_count(l, i),
    decreases i,
{
    if i > 0 {
        lemma_as_text_length(l, i - 1);
    }
}

/// Every key position has exactly one base-layer layer key: the head of
/// its layer list is on layer 0, and no other layer key of that key is.
pub proof fn lemma_base_layer_unique(l: Layout, i: int)
    requires
        l.wf(),
        0 <= i < l.num_keys(),
    ensures
        (l.key_layers_seq()[i][0] as int) < l.layerkeys@.len(),
        l.layerkeys@[l.key_layers_seq()[i][0] as int].layer == 0,
        l.layerkeys@[l.key_layers_seq()[i][0] as int].key_index == i,
        forall|k: int|
            0 <= k < l.layerkeys@.len() && (#[trigger] l.layerkeys@[k]).key_index == i
                && l.layerkeys@[k].layer == 0 ==> k == l.key_layers_seq()[i][0],
{
    assert(l.key_layers_seq()[i].len() >= 1);
    assert forall|k: int|
        0 <= k < l.layerkeys@.len() && (#[trigger] l.layerkeys@[k]).key_index == i
            && l.layerkeys@[k].layer == 0 implies k == l.key_layers_seq()[i][0] by {
        assert(l.key_layers_seq()[i][0] == k);
    }
}

/// Symbol resolution is deterministic: it is a function of the layout's
/// layer keys and layer costs alone, so two layouts that agree on those
/// resolve every symbol alike.
pub proof fn lemma_resolution_deterministic(l1: Layout, l2: Layout)
    requires
        l1.wf(),
        l2.wf(),
        l1.resolution_entries() == l2.resolution_entries(),
        l1.layer_costs_seq() == l2.layer_costs_seq(),
    ensures
        l1.key_map_view() == l2.key_map_view(),
{
}

/// When all layer keys carrying one symbol have exactly equal total
/// cost, resolution picks one with the lowest layer.
pub proof fn lemma_equal_cost_prefers_lower_layer(
    es: Seq<ResEntry>,
    costs: Seq<u64>,
    c: char,
    n: int,
)
    requires
        0 <= n <= es.len(),
        n <= u16::MAX as int + 1,
        forall|a: int, b: int|
            0 <= a < n && 0 <= b < n && (#[trigger] es[a]).0 == c && (#[trigger] es[b]).0 == c
                ==> entry_cost(es[a], costs) == entry_cost(es[b], costs),
    ensures
        key_map_prefix(es, costs, n).contains_key(c) ==> {
            let r = key_map_prefix(es, costs, n)[c] as int;
            &&& 0 <= r < n
            &&& es[r].0 == c
            &&& forall|k: int| 0 <= k < n && (#[trigger] es[k]).0 == c ==> es[r].2 <= es[k].2
        },
    decreases n,
{
    if n > 0 {
        lemma_equal_cost_prefers_lower_layer(es, costs, c, n - 1);
        lemma_key_map_prefix_bounds(es, costs, n - 1);
        lemma_key_map_prefix_bounds(es, costs, n);
        lemma_key_map_prefix_complete(es, costs, n - 1);
        let m = key_map_prefix(es, costs, n - 1);
        let m2 = key_map_prefix(es, costs, n);
        let e = es[n - 1];
        if m2.contains_key(c) {
            let r = m2[c] as int;
            if e.0 == c {
                if !m.contains_key(c) {
                    // No earlier entry carries `c`.
                    assert(r == n - 1);
                    assert forall|k: int| 0 <= k < n && (#[trigger] es[k]).0 == c implies es[r].2
                        <= es[k].2 by {
                        if k < n - 1 {
                            assert(m.contains_key(es[k].0));
                        }
                    }
                } else {
                    let r0 = m[c] as int;
                    assert(entry_cost(es[n - 1], costs) == entry_cost(es[r0], costs));
                    if resolution_better(e, es[r0], costs) {
                        assert(r == n - 1);
                        assert(e.2 < es[r0].2);
                    } else {
                        assert(r == r0);
                        assert(!(e.2 < es[r0].2));
                    }
                }
            } else {
                assert(m2[c] == m[c]);
            }
        }
    }
}

/// The resolution of a prefix only points into that prefix, and only at
/// entries carrying the resolved symbol.
pub proof fn lemma_key_map_prefix_bounds(es: Seq<ResEntry>, costs: Seq<u64>, n: int)
    requires
        n <= u16::MAX as int + 1,
    ensures
        forall|c: char|
            key_map_prefix(es, costs, n).contains_key(c) ==> 0 <= (#[trigger] key_map_prefix(
                es,
                costs,
                n,
            )[c] as int) < n && (n <= es.len() ==> es[key_map_prefix(es, costs, n)[c] as int].0 == c),
    decreases n,
{
    if n > 0 {
        lemma_key_map_prefix_bounds(es, costs, n - 1);
        let m = key_map_prefix(es, costs, n - 1);
        let m2 = key_map_prefix(es, costs, n);
        assert forall|c: char| m2.contains_key(c) implies 0 <= (#[trigger] m2[c] as int) < n && (n
            <= es.len() ==> es[m2[c] as int].0 == c) by {
            if m2[c] as int == n - 1 && !(m.contains_key(c) && m[c] as int == n - 1) {
                assert(es[n - 1].0 == c);
            }
        }
    }
}

/// Every symbol occurring in a prefix has an entry in its resolution.
pub proof fn lemma_key_map_prefix_complete(es: Seq<ResEntry>, costs: Seq<u64>, n: int)
    ensures
        forall|k: int|
            0 <= k < n ==> key_map_prefix(es, costs, n).contains_key((#[trigger] es[k]).0),
    decreases n,
{
    if n > 0 {
        lemma_key_map_prefix_complete(es, costs, n - 1);
    }
}

/// Whether layer key `k` is declared as a modifier on one of the first
/// `li` layers.
pub open spec fn is_declared_modifier_upto(
    k: int,
    mods: Seq<HandModifiers>,
    km: Map<char, LayerKeyIndex>,
    li: int,
) -> bool {
    exists|li2: int, h: Hand, j: int|
        0 <= li2 < li && 0 <= j < hand_mods(mods[li2], h).len() && km.contains_key(
            #[trigger] hand_mods(mods[li2], h)[j],
        ) && km[hand_mods(mods[li2], h)[j]] == k
}

/// `flat_count` is monotone in the number of keys counted.
pub proof fn lemma_flat_count_mono(kc: Seq<Vec<char>>, i: int, j: int)
    requires
        i <= j,
    ensures
        flat_count(kc, i) <= flat_count(kc, j),
    decreases j - i,
{
    if i < j {
        lemma_flat_count_mono(kc, i, j - 1);
    }
}

/// `flat_decompose` inverts `flat_count`.
pub proof fn lemma_flat_decompose_from_correct(kc: Seq<Vec<char>>, i0: int, i: int, j: int)
    requires
        0 <= i0 <= i,
        i < kc.len(),
        0 <= j < kc[i]@.len(),
    ensures
        flat_decompose_from(kc, i0, flat_count(kc, i) - flat_count(kc, i0) + j) == (i, j),
    decreases i - i0,
{
    if i0 < i {
        lemma_flat_count_mono(kc, i0 + 1, i);
        lemma_flat_decompose_from_correct(kc, i0 + 1, i, j);
    }
}

/// The flat index of layer `j` of key `i` decomposes back to `(i, j)`.
pub proof fn lemma_flat_decompose_correct(kc: Seq<Vec<char>>, i: int, j: int)
    requires
        0 <= i < kc.len(),
        0 <= j < kc[i]@.len(),
    ensures
        flat_decompose(kc, flat_count(kc, i) + j) == (i, j),
{
    lemma_flat_decompose_from_correct(kc, 0, i, j);
}

/// With at least one layer per key, the first `n` keys contribute at
/// least `n` layer keys.
pub proof fn lemma_flat_count_lower(kc: Seq<Vec<char>>, n: int)
    requires
        0 <= n <= kc.len(),
        forall|i: int| 0 <= i < kc.len() ==> (#[trigger] kc[i]@).len() >= 1,
    ensures
        flat_count(kc, n) >= n,
    decreases n,
{
    if n > 0 {
        lemma_flat_count_lower(kc, n - 1);
    }
}

/// Every flat index below the count of the first `n` keys decomposes
/// into a key below `n` and a layer of that key.
pub proof fn lemma_flat_decompose_range(kc: Seq<Vec<char>>, n: int, k: int)
    requires
        0 <= n <= kc.len(),
        0 <= k < flat_count(kc, n),
    ensures
        ({
            let (i, j) = flat_decompose(kc, k);
            0 <= i < n && 0 <= j < kc[i]@.len() && flat_count(kc, i) + j == k
        }),
    decreases n,
{
    if k < flat_count(kc, n - 1) {
        lemma_flat_decompose_range(kc, n - 1, k);
    } else {
        lemma_flat_decompose_correct(kc, n - 1, k - flat_count(kc, n - 1));
    }
}

/// A sequence of layer keys whose (key, layer) fields match the
/// configuration projects onto exactly the configuration's resolution
/// entries.
proof fn lemma_entries_match(v: Seq<LayerKey>, kc: Seq<Vec<char>>, keys: Seq<Key>, fixed: Seq<bool>)
    requires
        kc.len() == keys.len(),
        v.len() == flat_count(kc, kc.len() as int),
        forall|k: int|
            #![trigger v[k]]
            0 <= k < v.len() ==> base_entry_ok(v[k], k, kc, keys, fixed) || ({
                let (i, j) = flat_decompose(kc, k);
                lk_fields_match(v[k], j, keys[i], kc[i]@[j], v[k].is_fixed, i)
            }),
    ensures
        v.map_values(|lk: LayerKey| lk_entry(lk)) == config_entries(kc, keys),
{
    let lhs = v.map_values(|lk: LayerKey| lk_entry(lk));
    let rhs = config_entries(kc, keys);
    assert forall|k: int| 0 <= k < v.len() implies lhs[k] == rhs[k] by {
        lemma_flat_decompose_range(kc, kc.len() as int, k);
        let (i, j) = flat_decompose(kc, k);
        assert(lk_fields_match(v[k], j, keys[i], kc[i]@[j], v[k].is_fixed, i));
    }
    assert(lhs =~= rhs);
}

/// The layer cost lookup as executable code: 0 for layers without entry.
pub fn layer_cost_of(costs: &Vec<u64>, layer: usize) -> (r: u64)
    ensures
        r == layer_cost_spec(costs@, layer as int),
{
    if layer < costs.len() {
        costs[layer]
    } else {
        0
    }
}

/// Copy a vector of layer key indices.
pub fn clone_indices(v: &Vec<LayerKeyIndex>) -> (r: Vec<LayerKeyIndex>)
    ensures
        r@ == v@,
{
    let mut out: Vec<LayerKeyIndex> = Vec::new();
    let mut i: usize = 0;
    while i < v.len()
        invariant
            0 <= i <= v@.len(),
            out@ == v@.take(i as int),
        decreases v@.len() - i,
    {
        out.push(v[i]);
        proof {
            assert(out@ =~= v@.take(i + 1));
        }
        i = i + 1;
    }
    proof {
        assert(v@.take(v@.len() as int) =~= v@);
    }
    out
}

/// Resolve one list of modifier symbols through the symbol map, flagging
/// each resolved layer key as a modifier.
fn resolve_mod_list(
    km: &rustc_hash::FxHashMap<char, LayerKeyIndex>,
    chars: &Vec<char>,
    is_mod: &mut Vec<bool>,
) -> (r: Result<Vec<LayerKeyIndex>, LayoutError>)
    requires
        forall|c: char| km@.contains_key(c) ==> (#[trigger] km@[c] as int) < old(is_mod)@.len(),
    ensures
        final(is_mod)@.len() == old(is_mod)@.len(),
        match r {
            Ok(res) => {
                &&& (forall|j: int| 0 <= j < chars@.len() ==> km@.contains_key(#[trigger] chars@[j]))
                &&& res@ == chars@.map_values(|c: char| km@[c])
                &&& (forall|k: int|
                    0 <= k < old(is_mod)@.len() ==> ((#[trigger] final(is_mod)@[k]) <==> (old(
                        is_mod,
                    )@[k] || (exists|j: int|
                        0 <= j < chars@.len() && km@.contains_key(#[trigger] chars@[j]) && km@[
                        chars@[j]] == k))))
            },
            Err(e) => match e {
                LayoutError::UnsupportedModifier(c) => (exists|j: int|
                    0 <= j < chars@.len() && #[trigger] chars@[j] == c) && !km@.contains_key(c),
                _ => false,
            },
        },
{
    let mut res: Vec<LayerKeyIndex> = Vec::new();
    let mut j: usize = 0;
    while j < chars.len()
        invariant
            0 <= j <= chars@.len(),
            is_mod@.len() == old(is_mod)@.len(),
            forall|c: char| km@.contains_key(c) ==> (#[trigger] km@[c] as int) < old(is_mod)@.len(),
            res@.len() == j,
            forall|j2: int| 0 <= j2 < j ==> km@.contains_key(#[trigger] chars@[j2]),
            forall|j2: int| 0 <= j2 < j ==> #[trigger] res@[j2] == km@[chars@[j2]],
            forall|k: int|
                0 <= k < old(is_mod)@.len() ==> ((#[trigger] is_mod@[k]) <==> (old(is_mod)@[k] || (
                exists|j2: int|
                    0 <= j2 < j && km@.contains_key(#[trigger] chars@[j2]) && km@[chars@[j2]]
                        == k))),
        decreases chars@.len() - j,
    {
        let c = chars[j];
        match symbol_map_get(km, c) {
            None => {
                return Err(LayoutError::UnsupportedModifier(c));
            },
            Some(idx) => {
                res.push(idx);
                is_mod.set(idx as usize, true);
                proof {
                    assert forall|k: int|
                        0 <= k < old(is_mod)@.len() implies ((#[trigger] is_mod@[k]) <==> (old(
                        is_mod,
                    )@[k] || (exists|j2: int|
                        0 <= j2 < j + 1 && km@.contains_key(#[trigger] chars@[j2]) && km@[
                        chars@[j2]] == k))) by {
                        if k == idx as int {
                            assert(km@.contains_key(chars@[j as int]) && km@[chars@[j as int]]
                                == k);
                        }
                    }
                }
            },
        }
        j = j + 1;
    }
    proof {
        assert(res@ =~= chars@.map_values(|c: char| km@[c]));
    }
    Ok(res)
}

} // verus!
