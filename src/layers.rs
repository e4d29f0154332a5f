use vstd::prelude::*;

verus! {

/// The set of rendering layers an entity or a light belongs to, stored as a bitmask:
/// layer `n` is bit `n % 64` of word `n / 64`.
pub struct RenderLayers {
    pub words: Vec<u64>,
}

/// Whether the bitmask `words` holds layer `n`.
pub open spec fn has_layer(words: Seq<u64>, n: nat) -> bool {
    &&& n / 64 < words.len()
    &&& (words[(n / 64) as int] >> ((n % 64) as u64)) & 1u64 == 1u64
}

/// Whether two bitmasks share a set bit in some word that both of them have.
pub open spec fn words_intersect(a: Seq<u64>, b: Seq<u64>) -> bool {
    exists|i: int| 0 <= i < a.len() && i < b.len() && #[trigger] (a[i] & b[i]) != 0u64
}

/// The layers used where none are given: layer 0 alone.
pub open spec fn default_words() -> Seq<u64> {
    seq![1u64]
}

/// The layers of an optional layer component, falling back on the default ones.
pub open spec fn words_or_default(layers: Option<RenderLayers>) -> Seq<u64> {
    match layers {
        Some(l) => l.words@,
        None => default_words(),
    }
}

/// A non-zero word has some bit set.
proof fn lemma_nonzero_has_bit(z: u64) -> (k: u64)
    requires
        z != 0u64,
    ensures
        k < 64,
        (z >> k) & 1u64 == 1u64,
    decreases z,
{
    if z & 1u64 == 1u64 {
        assert((z >> 0u64) == z) by (bit_vector);
        0u64
    } else {
        let y = z >> 1u64;
        assert(z != 0u64 && z & 1u64 != 1u64 ==> (z >> 1u64) != 0u64 && (z >> 1u64) < z)
            by (bit_vector);
        let j = lemma_nonzero_has_bit(y);
        assert(j < 64 && (y >> j) & 1u64 == 1u64 && y == z >> 1u64 ==> j < 63 && (z >> (j
            + 1u64)) & 1u64 == 1u64) by (bit_vector);
        (j + 1) as u64
    }
}

/// Two bitmasks intersect exactly when some layer is in both.
pub proof fn lemma_intersect_iff_shared_layer(a: Seq<u64>, b: Seq<u64>)
    ensures
        words_intersect(a, b) <==> exists|n: nat| #[trigger] has_layer(a, n) && has_layer(b, n),
{
    if words_intersect(a, b) {
        let i = choose|i: int| 0 <= i < a.len() && i < b.len() && #[trigger] (a[i] & b[i]) != 0u64;
        let x = a[i];
        let y = b[i];
        let k = lemma_nonzero_has_bit(x & y);
        assert(k < 64 && ((x & y) >> k) & 1u64 == 1u64 ==> (x >> k) & 1u64 == 1u64 && (y >> k)
            & 1u64 == 1u64) by (bit_vector);
        let n: nat = (i * 64 + k) as nat;
        assert(n / 64 == i && n % 64 == k as nat);
        assert(has_layer(a, n) && has_layer(b, n));
    }
    if exists|n: nat| #[trigger] has_layer(a, n) && has_layer(b, n) {
        let n = choose|n: nat| #[trigger] has_layer(a, n) && has_layer(b, n);
        let i = (n / 64) as int;
        let k = (n % 64) as u64;
        let x = a[i];
        let y = b[i];
        assert(k < 64 && (x >> k) & 1u64 == 1u64 && (y >> k) & 1u64 == 1u64 ==> (x & y)
            != 0u64) by (bit_vector);
        assert((a[i] & b[i]) != 0u64);
    }
}

impl RenderLayers {
    /// Belongs to no layer at all.
    pub fn none() -> (r: RenderLayers)
        ensures
            r.words@ == seq![0u64],
            forall|n: nat| !has_layer(r.words@, n),
    {
        let r = RenderLayers { words: vec![0u64] };
        assert forall|n: nat| !has_layer(r.words@, n) by {
            if n / 64 < r.words@.len() {
                let s = (n % 64) as u64;
                assert((0u64 >> s) & 1u64 == 0u64) by (bit_vector);
            }
        }
        r
    }

    /// Belongs to layer `n` alone.
    pub fn layer(n: usize) -> (r: RenderLayers)
        ensures
            r.words@.len() == n / 64 + 1,
            forall|m: nat| has_layer(r.words@, m) <==> m == n,
    {
        let index: usize = n / 64;
        let bit: usize = n % 64;
        let mut words: Vec<u64> = Vec::new();
        while words.len() < index
            invariant
                words@.len() <= index,
                forall|j: int| 0 <= j < words@.len() ==> words@[j] == 0u64,
            decreases index - words@.len(),
        {
            words.push(0u64);
        }
        let w: u64 = 1u64 << (bit as u64);
        words.push(w);
        let r = RenderLayers { words };
        assert forall|m: nat| has_layer(r.words@, m) <==> m == n by {
            if m / 64 < r.words@.len() {
                let s = (m % 64) as u64;
                let t = bit as u64;
                if m / 64 == index as nat {
                    assert(s < 64 && t < 64 ==> (((1u64 << t) >> s) & 1u64 == 1u64 <==> s == t))
                        by (bit_vector);
                } else {
                    assert(r.words@[(m / 64) as int] == 0u64);
                    assert((0u64 >> s) & 1u64 == 0u64) by (bit_vector);
                }
            }
        }
        r
    }

    /// Whether the two share at least one layer.
    pub fn intersects(&self, other: &RenderLayers) -> (r: bool)
        ensures
            r == words_intersect(self.words@, other.words@),
    {
        let n = if self.words.len() < other.words.len() {
            self.words.len()
        } else {
            other.words.len()
        };
        let mut i: usize = 0;
        while i < n
            invariant
                n <= self.words.len(),
                n <= other.words.len(),
                i <= n,
                forall|j: int| 0 <= j < i ==> #[trigger] (self.words@[j] & other.words@[j]) == 0u64,
            ensures
                forall|j: int| 0 <= j < n ==> #[trigger] (self.words@[j] & other.words@[j]) == 0u64,
            decreases n - i,
        {
            if self.words[i] & other.words[i] != 0 {
                return true;
            }
            i = i + 1;
        }
        false
    }
}

impl Default for RenderLayers {
    fn default() -> (r: RenderLayers)
        ensures
            r.words@ == default_words(),
    {
        RenderLayers { words: vec![1u64] }
    }
}

impl Clone for RenderLayers {
    fn clone(&self) -> (r: RenderLayers)
        ensures
            r.words@ == self.words@,
    {
        RenderLayers { words: self.words.clone() }
    }
}

/// Whether the optional layer components of a light and of an entity share a layer,
/// each falling back on the default layers when absent.
pub fn layers_match(light: &Option<RenderLayers>, entity: &Option<RenderLayers>) -> (r: bool)
    ensures
        r == words_intersect(words_or_default(*light), words_or_default(*entity)),
{
    let d = RenderLayers::default();
    let a = match light {
        Some(l) => l,
        None => &d,
    };
    let b = match entity {
        Some(l) => l,
        None => &d,
    };
    a.intersects(b)
}

} // verus!
