//! Attention shapes: how a model is split into heads, and which keys a query may see.
use vstd::arithmetic::div_mod::{lemma_fundamental_div_mod_converse, lemma_small_mod};
use vstd::prelude::*;

verus! {

/// Why a model cannot be split into heads, if it cannot.
pub open spec fn head_split_problem_text(d_model: usize, num_heads: usize) -> Option<Seq<char>> {
    if num_heads == 0 {
        Some("num_heads must be greater than zero"@)
    } else if d_model % num_heads != 0 {
        Some("d_model must be divisible by num_heads"@)
    } else {
        None
    }
}

/// The width of one head, or why the model cannot be split.
pub fn head_dim(d_model: usize, num_heads: usize) -> (r: Result<usize, &'static str>)
    ensures
        match r {
            Ok(dim) => head_split_problem_text(d_model, num_heads) is None && dim * num_heads
                == d_model,
            Err(message) => head_split_problem_text(d_model, num_heads) == Some(message@),
        },
{
    if num_heads == 0 {
        return Err("num_heads must be greater than zero");
    }
    if d_model % num_heads != 0 {
        return Err("d_model must be divisible by num_heads");
    }
    proof {
        let dim = d_model / num_heads;
        assert(dim * num_heads == d_model) by (nonlinear_arith)
            requires
                num_heads > 0,
                d_model % num_heads == 0,
                dim == d_model / num_heads,
        ;
    }
    Ok(d_model / num_heads)
}

/// Whether query `query` of the new positions may not see key `key`: it lies behind the query.
pub open spec fn hidden(new_len: int, total_len: int, query: int, key: int) -> bool {
    key > total_len - new_len + query
}

/// The mask of every batch entry and head, row by row: one row for each new position.
pub open spec fn cache_mask(rows: int, new_len: int, total_len: int) -> Seq<bool> {
    Seq::new(
        (rows * total_len) as nat,
        |i: int| hidden(new_len, total_len, (i / total_len) % new_len, i % total_len),
    )
}

/// The mask over cached and new positions: true where a key is hidden from a query.
pub fn causal_cache_mask(
    batch_size: usize,
    num_heads: usize,
    new_seq_len: usize,
    total_seq_len: usize,
) -> (mask: Vec<bool>)
    requires
        new_seq_len <= total_seq_len,
        batch_size * num_heads <= usize::MAX,
        batch_size * num_heads * new_seq_len <= usize::MAX,
        batch_size * num_heads * new_seq_len * total_seq_len <= usize::MAX,
    ensures
        mask@ == cache_mask(
            batch_size * num_heads * new_seq_len,
            new_seq_len as int,
            total_seq_len as int,
        ),
{
    let rows: usize = batch_size * num_heads * new_seq_len;
    let cached: usize = total_seq_len - new_seq_len;
    let ghost whole = cache_mask(rows as int, new_seq_len as int, total_seq_len as int);
    let mut mask: Vec<bool> = Vec::new();
    let mut row: usize = 0;
    let mut query: usize = 0;
    assert(whole.take(0) =~= mask@);
    while row < rows
        invariant
            row <= rows,
            rows * total_seq_len <= usize::MAX,
            new_seq_len <= total_seq_len,
            cached == total_seq_len - new_seq_len,
            whole == cache_mask(rows as int, new_seq_len as int, total_seq_len as int),
            rows > 0 ==> new_seq_len > 0 && query < new_seq_len && query == row % new_seq_len,
            mask@ =~= whole.take(row * total_seq_len),
            mask@.len() == row * total_seq_len,
        decreases rows - row,
    {
        let mut key: usize = 0;
        assert(row * total_seq_len + total_seq_len <= rows * total_seq_len) by (nonlinear_arith)
            requires
                row + 1 <= rows,
        ;
        while key < total_seq_len
            invariant
                key <= total_seq_len,
                row < rows,
                query < new_seq_len <= total_seq_len,
                query == row % new_seq_len,
                cached == total_seq_len - new_seq_len,
                row * total_seq_len + total_seq_len <= rows * total_seq_len,
                whole == cache_mask(rows as int, new_seq_len as int, total_seq_len as int),
                mask@ =~= whole.take(row * total_seq_len + key),
                mask@.len() == row * total_seq_len + key,
            decreases total_seq_len - key,
        {
            let ghost i = row * total_seq_len + key;
            proof {
                assert(row * total_seq_len == total_seq_len * row) by (nonlinear_arith);
                lemma_fundamental_div_mod_converse(i, total_seq_len as int, row as int, key as int);
                assert(i >= 0) by (nonlinear_arith)
                    requires
                        i == row * total_seq_len + key,
                ;
                assert(whole[i] == hidden(
                    new_seq_len as int,
                    total_seq_len as int,
                    query as int,
                    key as int,
                ));
            }
            mask.push(key > cached + query);
            assert(mask@ =~= whole.take(i + 1));
            key += 1;
        }
        assert((row + 1) * total_seq_len == row * total_seq_len + total_seq_len) by (
        nonlinear_arith);
        proof {
            let m = new_seq_len as int;
            if query + 1 < m {
                let q = row as int / m;
                assert(row as int == m * q + query) by (nonlinear_arith)
                    requires
                        query == row as int % m,
                        q == row as int / m,
                        m > 0,
                ;
                lemma_fundamental_div_mod_converse(row + 1, m, q, query + 1);
            } else {
                let q = row as int / m;
                assert(row as int == m * q + query) by (nonlinear_arith)
                    requires
                        query == row as int % m,
                        q == row as int / m,
                        m > 0,
                ;
                assert(row + 1 == m * (q + 1) + 0) by (nonlinear_arith)
                    requires
                        row as int == m * q + query,
                        query + 1 == m,
                ;
                lemma_fundamental_div_mod_converse(row + 1, m, q + 1, 0);
            }
        }
        query = if query + 1 < new_seq_len {
            query + 1
        } else {
            0
        };
        row += 1;
    }
    assert(whole.take(rows * total_seq_len) =~= whole);
    mask
}

/// Whether a mask has to be laid over the scores at all.
pub fn needs_mask(new_seq_len: usize, total_seq_len: usize) -> (yes: bool)
    ensures
        yes == (new_seq_len > 1 || new_seq_len == total_seq_len),
{
    new_seq_len > 1 || new_seq_len == total_seq_len
}

/// Every new position sees all cached positions, itself and the new ones before it, and none
/// behind it.
pub proof fn law_mask_is_causal(new_len: int, total_len: int, query: int, key: int)
    requires
        0 <= new_len <= total_len,
        0 <= query < new_len,
        0 <= key < total_len,
    ensures
        key < total_len - new_len ==> !hidden(new_len, total_len, query, key),
        hidden(new_len, total_len, query, key) <==> key - (total_len - new_len) > query,
{
}

/// A single new position behind cached ones sees every key: where the mask is left out, it would
/// have hidden nothing.
pub proof fn law_single_position_sees_all(total_len: int, key: int)
    requires
        1 <= total_len,
        0 <= key < total_len,
    ensures
        !hidden(1, total_len, 0, key),
{
}

/// How many positions each layer has keys and values cached for. A layer that has taken nothing in
/// yet has none.
#[derive(Debug, PartialEq, Eq)]
pub struct CacheLengths {
    pub layers: Vec<Option<usize>>,
}

/// The number of positions of one layer.
pub open spec fn layer_length(layer: Option<usize>) -> int {
    match layer {
        Some(n) => n as int,
        None => 0,
    }
}

/// The number of positions that a cache holds: that of its first layer. A model without layers
/// keeps nothing.
pub open spec fn cache_length(layers: Seq<Option<usize>>) -> int {
    if layers.len() == 0 {
        0
    } else {
        layer_length(layers[0])
    }
}

/// Whether all layers hold the same positions.
pub open spec fn uniform(layers: Seq<Option<usize>>) -> bool {
    forall|i: int|
        0 <= i < layers.len() ==> layer_length(#[trigger] layers[i]) == cache_length(layers)
}

/// A cache after every layer has taken `new_len` positions in.
pub open spec fn grown(layers: Seq<Option<usize>>, new_len: int) -> Seq<Option<usize>> {
    Seq::new(layers.len(), |i: int| Some((layer_length(layers[i]) + new_len) as usize))
}

/// The positions of the next `new_len` tokens: those behind the cached ones.
pub open spec fn next_positions(layers: Seq<Option<usize>>, new_len: int) -> Seq<i64> {
    Seq::new(new_len as nat, |i: int| (cache_length(layers) + i) as i64)
}

impl CacheLengths {
    /// A cache of the given number of layers that holds nothing.
    pub fn empty(num_layers: usize) -> (cache: CacheLengths)
        ensures
            cache.layers@ == Seq::new(num_layers as nat, |i: int| None::<usize>),
            uniform(cache.layers@),
            cache_length(cache.layers@) == 0,
    {
        let mut layers: Vec<Option<usize>> = Vec::new();
        let mut i: usize = 0;
        while i < num_layers
            invariant
                i <= num_layers,
                layers@ =~= Seq::new(i as nat, |j: int| None::<usize>),
            decreases num_layers - i,
        {
            layers.push(None);
            i += 1;
        }
        CacheLengths { layers }
    }

    /// Refuses a cache that was made for another number of layers.
    pub fn check(&self, num_layers: usize) -> (r: Result<(), &'static str>)
        ensures
            match r {
                Ok(_) => self.layers@.len() == num_layers,
                Err(message) => self.layers@.len() != num_layers && message@
                    == "KV cache must have one entry per transformer block"@,
            },
    {
        if self.layers.len() != num_layers {
            return Err("KV cache must have one entry per transformer block");
        }
        Ok(())
    }

    /// The number of positions that the cache holds.
    pub fn len(&self) -> (n: usize)
        ensures
            n == cache_length(self.layers@),
    {
        if self.layers.len() == 0 {
            return 0;
        }
        match self.layers[0] {
            Some(n) => n,
            None => 0,
        }
    }

    /// The positions of the next tokens: see [`next_positions`].
    pub fn positions(&self, new_len: usize) -> (positions: Vec<i64>)
        requires
            cache_length(self.layers@) + new_len <= i64::MAX,
        ensures
            positions@ == next_positions(self.layers@, new_len as int),
    {
        let start: usize = self.len();
        let mut positions: Vec<i64> = Vec::new();
        let mut i: usize = 0;
        while i < new_len
            invariant
                i <= new_len,
                start == cache_length(self.layers@),
                start + new_len <= i64::MAX,
                positions@ =~= next_positions(self.layers@, i as int),
            decreases new_len - i,
        {
            positions.push(start as i64 + i as i64);
            i += 1;
        }
        positions
    }

    /// Takes the positions of new tokens in, in every layer.
    pub fn extend(&mut self, new_len: usize)
        requires
            forall|i: int|
                0 <= i < old(self).layers@.len() ==> layer_length(#[trigger] old(self).layers@[i])
                    + new_len <= usize::MAX,
        ensures
            final(self).layers@ == grown(old(self).layers@, new_len as int),
    {
        let ghost before = self.layers@;
        let mut i: usize = 0;
        while i < self.layers.len()
            invariant
                i <= self.layers@.len(),
                self.layers@.len() == before.len(),
                forall|j: int|
                    0 <= j < before.len() ==> layer_length(#[trigger] before[j]) + new_len
                        <= usize::MAX,
                forall|j: int|
                    0 <= j < before.len() ==> #[trigger] self.layers@[j] == (if j < i {
                        grown(before, new_len as int)[j]
                    } else {
                        before[j]
                    }),
            decreases self.layers.len() - i,
        {
            assert(layer_length(before[i as int]) + new_len <= usize::MAX);
            let held: usize = match self.layers[i] {
                Some(n) => n,
                None => 0,
            };
            self.layers.set(i, Some(held + new_len));
            i += 1;
        }
        assert(self.layers@ =~= grown(before, new_len as int));
    }
}

/// Layers that hold the same positions go on holding the same; and what is taken in next lies
/// right behind what was taken in before, so that no position is used twice or left out.
pub proof fn law_positions_adjoin(layers: Seq<Option<usize>>, first: int, second: int)
    requires
        uniform(layers),
        layers.len() > 0,
        0 <= first,
        0 <= second,
        cache_length(layers) + first + second <= i64::MAX,
        cache_length(layers) + first <= usize::MAX,
    ensures
        uniform(grown(layers, first)),
        cache_length(grown(layers, first)) == cache_length(layers) + first,
        next_positions(layers, first) + next_positions(grown(layers, first), second)
            == next_positions(layers, first + second),
{
    assert forall|i: int| 0 <= i < layers.len() implies layer_length(
        #[trigger] grown(layers, first)[i],
    ) == cache_length(layers) + first by {
        assert(layer_length(layers[i]) == cache_length(layers));
    }
    assert(cache_length(grown(layers, first)) == layer_length(grown(layers, first)[0]));
    assert(next_positions(layers, first) + next_positions(grown(layers, first), second)
        =~= next_positions(layers, first + second));
}

/// The mask has one row for each new position of each batch entry and head, and one column for each
/// key; a place of it is set exactly where the key lies behind the position of its row.
pub proof fn law_the_mask_hides_what_lies_behind(
    rows: int,
    new_len: int,
    total_len: int,
    row: int,
    key: int,
)
    requires
        0 <= row < rows,
        0 < new_len <= total_len,
        0 <= key < total_len,
    ensures
        cache_mask(rows, new_len, total_len).len() == rows * total_len,
        0 <= row * total_len + key < rows * total_len,
        cache_mask(rows, new_len, total_len)[row * total_len + key] <==> key > (total_len - new_len)
            + row % new_len,
{
    assert(0 <= row * total_len + key < rows * total_len) by (nonlinear_arith)
        requires
            0 <= row < rows,
            0 <= key < total_len,
    ;
    let i = row * total_len + key;
    vstd::arithmetic::div_mod::lemma_fundamental_div_mod_converse(i, total_len, row, key);
}

/// An empty cache puts the first tokens at the first positions.
pub proof fn law_positions_begin_at_zero(layers: Seq<Option<usize>>, new_len: int, i: int)
    requires
        forall|l: int| 0 <= l < layers.len() ==> (#[trigger] layers[l]) is None,
        0 <= i < new_len <= i64::MAX,
    ensures
        next_positions(layers, new_len).len() == new_len,
        next_positions(layers, new_len)[i] == i,
{
}

/// A model can be split into heads exactly where there are heads and they divide its width.
pub proof fn law_heads_divide_the_width(d_model: usize, num_heads: usize)
    ensures
        head_split_problem_text(d_model, num_heads) is None <==> num_heads > 0 && exists|w: int|
            w >= 0 && d_model == #[trigger] (w * num_heads),
{
    if num_heads > 0 {
        let w = d_model as int / num_heads as int;
        assert(d_model == w * num_heads + d_model % num_heads && w >= 0) by (nonlinear_arith)
            requires
                w == d_model as int / num_heads as int,
                num_heads > 0,
        ;
        if exists|v: int| v >= 0 && d_model == #[trigger] (v * num_heads) {
            let v = choose|v: int| v >= 0 && d_model == #[trigger] (v * num_heads);
            assert(d_model % num_heads == 0) by (nonlinear_arith)
                requires
                    d_model == v * num_heads,
                    num_heads > 0,
            ;
        }
    }
}

} // verus!
