//! Stable ordering of table rows by one column, ascending or descending.
//!
//! A column's value is a [`ColumnKey`]: a number, a text compared
//! character by character, or a fee rate (fee over size) compared exactly.
//! Rows with equal keys keep the relative order they were given in.

use vstd::prelude::*;

verus! {

/// The value of one column of a row, as far as ordering is concerned.
pub enum KeyValue {
    /// An integer column.
    Number(i128),
    /// A text column, as its characters.
    Text(Seq<char>),
    /// A fee rate in satoshis per virtual byte, given as the fee and the
    /// size; a size of zero stands for the rate zero.
    Rate(u64, u64),
}

/// The executable form of a [`KeyValue`].
pub enum ColumnKey {
    /// An integer column.
    Number(i128),
    /// A text column, as its characters.
    Text(Vec<char>),
    /// A fee rate in satoshis per virtual byte, given as the fee and the
    /// size; a size of zero stands for the rate zero.
    Rate(u64, u64),
}

/// Comparison of two characters by code point: -1, 0 or 1.
pub open spec fn char_order(a: char, b: char) -> int {
    if (a as u32) < (b as u32) {
        -1
    } else if (a as u32) > (b as u32) {
        1
    } else {
        0
    }
}

impl View for ColumnKey {
    type V = KeyValue;

    open spec fn view(&self) -> KeyValue {
        match self {
            ColumnKey::Number(x) => KeyValue::Number(*x),
            ColumnKey::Text(t) => KeyValue::Text(t@),
            ColumnKey::Rate(f, s) => KeyValue::Rate(*f, *s),
        }
    }
}

/// The key values of a sequence of keys.
pub open spec fn key_values(keys: Seq<ColumnKey>) -> Seq<KeyValue> {
    keys.map_values(|k: ColumnKey| k@)
}

/// Lexicographic comparison of two texts by code point: -1, 0 or 1.
/// A proper prefix comes first.
pub open spec fn text_order(a: Seq<char>, b: Seq<char>) -> int
    decreases a.len(),
{
    if a.len() == 0 {
        if b.len() == 0 {
            0
        } else {
            -1
        }
    } else if b.len() == 0 {
        1
    } else if char_order(a[0], b[0]) != 0 {
        char_order(a[0], b[0])
    } else {
        text_order(a.drop_first(), b.drop_first())
    }
}

/// The numerator of a fee rate: the fee, or zero for an empty size.
pub open spec fn rate_num(fee: u64, size: u64) -> int {
    if size == 0 {
        0
    } else {
        fee as int
    }
}

/// The denominator of a fee rate: the size, or one for an empty size.
pub open spec fn rate_den(fee: u64, size: u64) -> int {
    if size == 0 {
        1
    } else {
        size as int
    }
}

/// The sign of an integer: -1, 0 or 1.
pub open spec fn sign(x: int) -> int {
    if x < 0 {
        -1
    } else if x > 0 {
        1
    } else {
        0
    }
}

/// Keys of different kinds are ordered by kind (numbers, then texts, then
/// rates); a table never mixes them.
pub open spec fn kind_rank(k: KeyValue) -> int {
    match k {
        KeyValue::Number(_) => 0,
        KeyValue::Text(_) => 1,
        KeyValue::Rate(_, _) => 2,
    }
}

/// Comparison of two keys: -1 when `a` is smaller, 1 when it is larger, 0
/// when they are equivalent.
pub open spec fn key_order(a: KeyValue, b: KeyValue) -> int {
    match a {
        KeyValue::Number(x) => match b {
            KeyValue::Number(y) => sign(x - y),
            _ => sign(kind_rank(a) - kind_rank(b)),
        },
        KeyValue::Text(x) => match b {
            KeyValue::Text(y) => text_order(x, y),
            _ => sign(kind_rank(a) - kind_rank(b)),
        },
        KeyValue::Rate(f1, s1) => match b {
            KeyValue::Rate(f2, s2) => sign(
                rate_num(f1, s1) * rate_den(f2, s2) - rate_num(f2, s2) * rate_den(f1, s1),
            ),
            _ => sign(kind_rank(a) - kind_rank(b)),
        },
    }
}

/// Row `i` comes before row `j` when its key is smaller (larger, when
/// descending), or when the keys are equivalent and `i` came first.
pub open spec fn goes_before(keys: Seq<KeyValue>, descending: bool, i: int, j: int) -> bool {
    let c = key_order(keys[i], keys[j]);
    if descending {
        c > 0 || (c == 0 && i < j)
    } else {
        c < 0 || (c == 0 && i < j)
    }
}

/// `order` lists every row index exactly once, in the stable order of
/// `keys` in the given direction.
pub open spec fn is_stable_order(keys: Seq<KeyValue>, descending: bool, order: Seq<usize>) -> bool {
    &&& order.len() == keys.len()
    &&& forall|k: int| 0 <= k < order.len() ==> #[trigger] order[k] < keys.len()
    &&& forall|i: int| 0 <= i < keys.len() ==> #[trigger] order.contains(i as usize)
    &&& forall|a: int, b: int|
        0 <= a < b < order.len() ==> goes_before(keys, descending, #[trigger] order[a] as int, #[trigger] order[b] as int)
}

/// `out` is `items` rearranged by `order`.
pub open spec fn arranged<T>(items: Seq<T>, order: Seq<usize>, out: Seq<T>) -> bool {
    &&& out.len() == order.len()
    &&& forall|k: int| 0 <= k < order.len() ==> #[trigger] out[k] == items[order[k] as int]
}

proof fn lemma_text_order_antisym(a: Seq<char>, b: Seq<char>)
    ensures
        text_order(a, b) == -text_order(b, a),
        -1 <= text_order(a, b) <= 1,
    decreases a.len(),
{
    if a.len() > 0 && b.len() > 0 && char_order(a[0], b[0]) == 0 {
        lemma_text_order_antisym(a.drop_first(), b.drop_first());
    }
}

proof fn lemma_text_order_trans(a: Seq<char>, b: Seq<char>, c: Seq<char>)
    requires
        text_order(a, b) <= 0,
        text_order(b, c) <= 0,
    ensures
        text_order(a, c) <= 0,
    decreases a.len(),
{
    if a.len() > 0 && b.len() > 0 && c.len() > 0 {
        if char_order(a[0], b[0]) == 0 && char_order(b[0], c[0]) == 0 {
            lemma_text_order_trans(a.drop_first(), b.drop_first(), c.drop_first());
        }
    }
}

proof fn lemma_rate_trans(n1: int, d1: int, n2: int, d2: int, n3: int, d3: int)
    requires
        d1 > 0,
        d2 > 0,
        d3 > 0,
        n1 * d2 <= n2 * d1,
        n2 * d3 <= n3 * d2,
    ensures
        n1 * d3 <= n3 * d1,
{
    assert(n1 * d2 * d3 <= n2 * d1 * d3) by (nonlinear_arith)
        requires
            n1 * d2 <= n2 * d1,
            d3 > 0,
    ;
    assert(n2 * d3 * d1 <= n3 * d2 * d1) by (nonlinear_arith)
        requires
            n2 * d3 <= n3 * d2,
            d1 > 0,
    ;
    assert(n1 * d3 * d2 <= n3 * d1 * d2) by (nonlinear_arith)
        requires
            n1 * d2 * d3 <= n2 * d1 * d3,
            n2 * d3 * d1 <= n3 * d2 * d1,
    ;
    assert(n1 * d3 <= n3 * d1) by (nonlinear_arith)
        requires
            n1 * d3 * d2 <= n3 * d1 * d2,
            d2 > 0,
    ;
}

/// `a` comes before `b` in code-point order, as `String` compares texts:
/// either `a` is a proper prefix of `b`, or at the first position where
/// they differ `a`'s character has the smaller code point.
pub open spec fn code_point_less(a: Seq<char>, b: Seq<char>) -> bool {
    ||| (a.len() < b.len() && a == b.take(a.len() as int))
    ||| exists|i: int|
        0 <= i < a.len() && i < b.len() && a.take(i) == b.take(i) && (#[trigger] a[i] as u32) < (b[i] as u32)
}

/// Texts are ordered by code point, as `String` orders them: the order is
/// below zero exactly when the first text comes first, above zero exactly
/// when the second does, and zero exactly for equal texts.
pub proof fn lemma_text_order_is_code_point_order(a: Seq<char>, b: Seq<char>)
    ensures
        text_order(a, b) < 0 <==> code_point_less(a, b),
        text_order(a, b) > 0 <==> code_point_less(b, a),
        text_order(a, b) == 0 <==> a == b,
    decreases a.len(),
{
    lemma_text_order_antisym(a, b);
    if a.len() == 0 {
        assert(a == b.take(0));
        if b.len() == 0 {
            assert(a =~= b);
        }
    } else if b.len() == 0 {
        assert(b == a.take(0));
    } else if char_order(a[0], b[0]) != 0 {
        lemma_char_code(a[0], b[0]);
        assert(a.take(0) =~= b.take(0));
        if (a[0] as u32) < (b[0] as u32) {
            assert(code_point_less(a, b));
            if code_point_less(b, a) {
                if b.len() < a.len() && b == a.take(b.len() as int) {
                    assert(b[0] == a.take(b.len() as int)[0]);
                } else {
                    let i = choose|i: int|
                        0 <= i < b.len() && i < a.len() && b.take(i) == a.take(i) && (#[trigger] b[i] as u32) < (
                        a[i] as u32);
                    if i > 0 {
                        assert(b.take(i)[0] == a.take(i)[0]);
                    }
                }
            }
        } else {
            assert(code_point_less(b, a));
            if code_point_less(a, b) {
                if a.len() < b.len() && a == b.take(a.len() as int) {
                    assert(a[0] == b.take(a.len() as int)[0]);
                } else {
                    let i = choose|i: int|
                        0 <= i < a.len() && i < b.len() && a.take(i) == b.take(i) && (#[trigger] a[i] as u32) < (
                        b[i] as u32);
                    if i > 0 {
                        assert(a.take(i)[0] == b.take(i)[0]);
                    }
                }
            }
        }
        assert(a[0] != b[0]);
    } else {
        let a1 = a.drop_first();
        let b1 = b.drop_first();
        lemma_text_order_is_code_point_order(a1, b1);
        lemma_char_code(a[0], b[0]);
        assert(a[0] == b[0]);
        lemma_code_point_less_tail(a, b);
        lemma_code_point_less_tail(b, a);
        if a1 == b1 {
            assert forall|k: int| 0 < k < a.len() implies #[trigger] a[k] == b[k] by {
                assert(a[k] == a1[k - 1]);
                assert(b[k] == b1[k - 1]);
            }
            assert(a =~= b);
        }
        if a == b {
            assert(a1 =~= b1);
        }
    }
}

/// A character's code point is its value, and characters with the same
/// code point are the same character.
proof fn lemma_char_code(x: char, y: char)
    ensures
        (x as u32) == (x as int),
        (y as u32) == (y as int),
        ((x as u32) == (y as u32)) == (x == y),
{
}

/// Two texts with the same first character compare as their rests do.
proof fn lemma_code_point_less_tail(a: Seq<char>, b: Seq<char>)
    requires
        a.len() > 0,
        b.len() > 0,
        a[0] == b[0],
    ensures
        code_point_less(a, b) <==> code_point_less(a.drop_first(), b.drop_first()),
{
    let a1 = a.drop_first();
    let b1 = b.drop_first();
    if code_point_less(a, b) {
        if a.len() < b.len() && a == b.take(a.len() as int) {
            assert(a1 =~= b1.take(a1.len() as int));
        } else {
            let i = choose|i: int|
                0 <= i < a.len() && i < b.len() && a.take(i) == b.take(i) && (#[trigger] a[i] as u32) < (b[i] as u32);
            assert(i > 0);
            assert(a1.take(i - 1) =~= b1.take(i - 1)) by {
                assert forall|k: int| 0 <= k < i - 1 implies #[trigger] a1.take(i - 1)[k] == b1.take(i - 1)[k] by {
                    assert(a.take(i)[k + 1] == b.take(i)[k + 1]);
                }
            }
            assert(a1[i - 1] == a[i]);
            assert(b1[i - 1] == b[i]);
        }
    }
    if code_point_less(a1, b1) {
        if a1.len() < b1.len() && a1 == b1.take(a1.len() as int) {
            assert(a =~= b.take(a.len() as int)) by {
                assert forall|k: int| 0 < k < a.len() implies #[trigger] a[k] == b.take(a.len() as int)[k] by {
                    assert(a1[k - 1] == b1.take(a1.len() as int)[k - 1]);
                }
            }
        } else {
            let i = choose|i: int|
                0 <= i < a1.len() && i < b1.len() && a1.take(i) == b1.take(i) && (#[trigger] a1[i] as u32) < (
                b1[i] as u32);
            assert(a.take(i + 1) =~= b.take(i + 1)) by {
                assert forall|k: int| 0 < k < i + 1 implies #[trigger] a.take(i + 1)[k] == b.take(i + 1)[k] by {
                    assert(a1.take(i)[k - 1] == b1.take(i)[k - 1]);
                }
            }
            assert(a[i + 1] == a1[i]);
            assert(b[i + 1] == b1[i]);
        }
    }
}

/// In a stable order, rows never go against the direction: ascending, no
/// row's key is larger than a later row's; descending, none is smaller.
pub proof fn lemma_stable_order_sorted(keys: Seq<KeyValue>, descending: bool, order: Seq<usize>, a: int, b: int)
    requires
        is_stable_order(keys, descending, order),
        0 <= a < b < order.len(),
    ensures
        descending ==> key_order(keys[order[a] as int], keys[order[b] as int]) >= 0,
        !descending ==> key_order(keys[order[a] as int], keys[order[b] as int]) <= 0,
{
    assert(goes_before(keys, descending, order[a] as int, order[b] as int));
}

/// Key comparison is antisymmetric and takes only the values -1, 0, 1.
pub proof fn lemma_key_order_antisym(a: KeyValue, b: KeyValue)
    ensures
        key_order(a, b) == -key_order(b, a),
        -1 <= key_order(a, b) <= 1,
{
    match a {
        KeyValue::Text(x) => match b {
            KeyValue::Text(y) => lemma_text_order_antisym(x, y),
            _ => {},
        },
        _ => {},
    }
}

/// "Not larger than" is transitive for keys.
pub proof fn lemma_key_order_trans(a: KeyValue, b: KeyValue, c: KeyValue)
    requires
        key_order(a, b) <= 0,
        key_order(b, c) <= 0,
    ensures
        key_order(a, c) <= 0,
{
    match (a, b, c) {
        (KeyValue::Text(x), KeyValue::Text(y), KeyValue::Text(z)) => {
            lemma_text_order_trans(x, y, z);
        },
        (KeyValue::Rate(f1, s1), KeyValue::Rate(f2, s2), KeyValue::Rate(f3, s3)) => {
            lemma_rate_trans(
                rate_num(f1, s1),
                rate_den(f1, s1),
                rate_num(f2, s2),
                rate_den(f2, s2),
                rate_num(f3, s3),
                rate_den(f3, s3),
            );
        },
        _ => {},
    }
}

/// Row precedence is a strict total order on distinct rows: never both
/// ways, one way for any two distinct rows, and transitive.
pub proof fn lemma_goes_before_total_order(
    keys: Seq<KeyValue>,
    descending: bool,
    i: int,
    j: int,
    k: int,
)
    requires
        0 <= i < keys.len(),
        0 <= j < keys.len(),
        0 <= k < keys.len(),
    ensures
        !(goes_before(keys, descending, i, j) && goes_before(keys, descending, j, i)),
        !goes_before(keys, descending, i, i),
        i != j ==> goes_before(keys, descending, i, j) || goes_before(keys, descending, j, i),
        goes_before(keys, descending, i, j) && goes_before(keys, descending, j, k) ==> goes_before(
            keys,
            descending,
            i,
            k,
        ),
{
    lemma_key_order_antisym(keys[i], keys[j]);
    lemma_key_order_antisym(keys[j], keys[k]);
    lemma_key_order_antisym(keys[i], keys[k]);
    lemma_key_order_antisym(keys[i], keys[i]);
    if goes_before(keys, descending, i, j) && goes_before(keys, descending, j, k) {
        if descending {
            lemma_key_order_trans(keys[k], keys[j], keys[i]);
            if key_order(keys[i], keys[k]) == 0 {
                lemma_key_order_trans(keys[j], keys[i], keys[k]);
                lemma_key_order_trans(keys[i], keys[k], keys[j]);
            }
        } else {
            lemma_key_order_trans(keys[i], keys[j], keys[k]);
            if key_order(keys[i], keys[k]) == 0 {
                lemma_key_order_trans(keys[k], keys[i], keys[j]);
                lemma_key_order_trans(keys[j], keys[k], keys[i]);
            }
        }
    }
}

fn compare_chars(a: char, b: char) -> (c: i8)
    ensures
        c == char_order(a, b),
{
    let x = a as u32;
    let y = b as u32;
    if x < y {
        -1
    } else if x > y {
        1
    } else {
        0
    }
}

fn compare_texts(a: &Vec<char>, b: &Vec<char>) -> (c: i8)
    ensures
        c == text_order(a@, b@),
{
    let mut i: usize = 0;
    assert(a@.skip(0) =~= a@);
    assert(b@.skip(0) =~= b@);
    while i < a.len() && i < b.len()
        invariant
            i <= a.len(),
            i <= b.len(),
            text_order(a@, b@) == text_order(a@.skip(i as int), b@.skip(i as int)),
        decreases a.len() - i,
    {
        let c = compare_chars(a[i], b[i]);
        assert(a@.skip(i as int)[0] == a@[i as int]);
        assert(b@.skip(i as int)[0] == b@[i as int]);
        if c != 0 {
            return c;
        }
        assert(a@.skip(i as int).drop_first() =~= a@.skip(i + 1));
        assert(b@.skip(i as int).drop_first() =~= b@.skip(i + 1));
        i = i + 1;
    }
    if i == a.len() {
        if i == b.len() {
            0
        } else {
            -1
        }
    } else {
        1
    }
}

/// Compares two keys.
pub fn compare_keys(a: &ColumnKey, b: &ColumnKey) -> (c: i8)
    ensures
        c == key_order(a@, b@),
{
    match a {
        ColumnKey::Number(x) => match b {
            ColumnKey::Number(y) => {
                if *x < *y {
                    -1
                } else if *x > *y {
                    1
                } else {
                    0
                }
            },
            _ => -1,
        },
        ColumnKey::Text(x) => match b {
            ColumnKey::Text(y) => compare_texts(x, y),
            ColumnKey::Number(_) => 1,
            ColumnKey::Rate(_, _) => -1,
        },
        ColumnKey::Rate(f1, s1) => match b {
            ColumnKey::Rate(f2, s2) => {
                let (n1, d1): (u128, u128) = if *s1 == 0 {
                    (0, 1)
                } else {
                    (*f1 as u128, *s1 as u128)
                };
                let (n2, d2): (u128, u128) = if *s2 == 0 {
                    (0, 1)
                } else {
                    (*f2 as u128, *s2 as u128)
                };
                assert(n1 * d2 <= u64::MAX * u64::MAX) by (nonlinear_arith)
                    requires
                        n1 <= u64::MAX,
                        d2 <= u64::MAX,
                ;
                assert(n2 * d1 <= u64::MAX * u64::MAX) by (nonlinear_arith)
                    requires
                        n2 <= u64::MAX,
                        d1 <= u64::MAX,
                ;
                let l = n1 * d2;
                let r = n2 * d1;
                if l < r {
                    -1
                } else if l > r {
                    1
                } else {
                    0
                }
            },
            _ => 1,
        },
    }
}

fn row_goes_before(keys: &Vec<ColumnKey>, descending: bool, i: usize, j: usize) -> (r: bool)
    requires
        i < keys.len(),
        j < keys.len(),
    ensures
        r == goes_before(key_values(keys@), descending, i as int, j as int),
{
    let c = compare_keys(&keys[i], &keys[j]);
    if descending {
        c > 0 || (c == 0 && i < j)
    } else {
        c < 0 || (c == 0 && i < j)
    }
}

/// The stable order of the rows whose keys are `keys`: row indices sorted
/// by key (ascending, or descending), equivalent keys in row order.
pub fn stable_order(keys: &Vec<ColumnKey>, descending: bool) -> (order: Vec<usize>)
    ensures
        is_stable_order(key_values(keys@), descending, order@),
{
    let ghost kv = key_values(keys@);
    let n = keys.len();
    let mut order: Vec<usize> = Vec::new();
    let mut i: usize = 0;
    while i < n
        invariant
            n == keys.len(),
            kv == key_values(keys@),
            i <= n,
            order.len() == i,
            forall|k: int| 0 <= k < order.len() ==> #[trigger] order@[k] < i,
            forall|x: int| 0 <= x < i ==> #[trigger] order@.contains(x as usize),
            forall|a: int, b: int|
                0 <= a < b < order.len() ==> goes_before(kv, descending, #[trigger] order@[a] as int, #[trigger] order@[b] as int),
        decreases n - i,
    {
        let mut pos: usize = 0;
        while pos < order.len() && row_goes_before(keys, descending, order[pos], i)
            invariant
                n == keys.len(),
            kv == key_values(keys@),
                i < n,
                pos <= order.len(),
                order.len() == i,
                forall|k: int| 0 <= k < order.len() ==> #[trigger] order@[k] < i,
                forall|q: int| 0 <= q < pos ==> goes_before(kv, descending, #[trigger] order@[q] as int, i as int),
            decreases order.len() - pos,
        {
            pos = pos + 1;
        }
        let ghost prev = order@;
        proof {
            // everything from `pos` on comes after `i`
            assert forall|q: int| pos <= q < prev.len() implies goes_before(kv, descending, i as int, #[trigger] prev[q] as int) by {
                lemma_goes_before_total_order(kv, descending, i as int, prev[pos as int] as int, prev[q] as int);
                if q > pos {
                    assert(goes_before(kv, descending, prev[pos as int] as int, prev[q] as int));
                }
            }
        }
        order.insert(pos, i);
        proof {
            let cur = order@;
            assert(cur.len() == prev.len() + 1);
            assert forall|k: int| 0 <= k < cur.len() implies #[trigger] cur[k] < i + 1 by {
                if k < pos {
                    assert(cur[k] == prev[k]);
                } else if k > pos {
                    assert(cur[k] == prev[k - 1]);
                }
            }
            assert forall|x: int| 0 <= x < i + 1 implies #[trigger] cur.contains(x as usize) by {
                if x == i {
                    assert(cur[pos as int] == i);
                } else {
                    assert(prev.contains(x as usize));
                    let k = choose|k: int| 0 <= k < prev.len() && prev[k] == x as usize;
                    if k < pos {
                        assert(cur[k] == x as usize);
                    } else {
                        assert(cur[k + 1] == x as usize);
                    }
                }
            }
            assert forall|a: int, b: int| 0 <= a < b < cur.len() implies goes_before(
                kv,
                descending,
                #[trigger] cur[a] as int,
                #[trigger] cur[b] as int,
            ) by {
                if b < pos {
                    assert(cur[a] == prev[a] && cur[b] == prev[b]);
                } else if b == pos {
                    assert(cur[a] == prev[a]);
                } else if a == pos {
                    assert(cur[b] == prev[b - 1]);
                } else if a < pos {
                    assert(cur[a] == prev[a] && cur[b] == prev[b - 1]);
                } else {
                    assert(cur[a] == prev[a - 1] && cur[b] == prev[b - 1]);
                }
            }
        }
        i = i + 1;
    }
    order
}

/// Two index sequences that each list the same rows in the stable order
/// are equal: the stable order is determined by the keys and the direction.
pub proof fn lemma_stable_order_unique(
    keys: Seq<KeyValue>,
    descending: bool,
    o1: Seq<usize>,
    o2: Seq<usize>,
)
    requires
        is_stable_order(keys, descending, o1),
        is_stable_order(keys, descending, o2),
    ensures
        o1 == o2,
{
    assert forall|k: int| 0 <= k < o1.len() implies o2.contains(#[trigger] o1[k]) by {
        assert(o2.contains(o1[k] as int as usize));
    }
    assert forall|k: int| 0 <= k < o2.len() implies o1.contains(#[trigger] o2[k]) by {
        assert(o1.contains(o2[k] as int as usize));
    }
    lemma_sorted_same_elements_equal(keys, descending, o1, o2);
}

proof fn lemma_sorted_same_elements_equal(
    keys: Seq<KeyValue>,
    descending: bool,
    s1: Seq<usize>,
    s2: Seq<usize>,
)
    requires
        forall|k: int| 0 <= k < s1.len() ==> #[trigger] s1[k] < keys.len(),
        forall|k: int| 0 <= k < s2.len() ==> #[trigger] s2[k] < keys.len(),
        forall|a: int, b: int|
            0 <= a < b < s1.len() ==> goes_before(keys, descending, #[trigger] s1[a] as int, #[trigger] s1[b] as int),
        forall|a: int, b: int|
            0 <= a < b < s2.len() ==> goes_before(keys, descending, #[trigger] s2[a] as int, #[trigger] s2[b] as int),
        forall|k: int| 0 <= k < s1.len() ==> s2.contains(#[trigger] s1[k]),
        forall|k: int| 0 <= k < s2.len() ==> s1.contains(#[trigger] s2[k]),
    ensures
        s1 == s2,
    decreases s1.len() + s2.len(),
{
    if s1.len() == 0 {
        if s2.len() > 0 {
            assert(s1.contains(s2[0]));
        }
        assert(s1 =~= s2);
    } else if s2.len() == 0 {
        assert(s2.contains(s1[0]));
    } else {
        let h1 = s1[0];
        let h2 = s2[0];
        assert(s2.contains(h1));
        assert(s1.contains(h2));
        let m = choose|m: int| 0 <= m < s2.len() && s2[m] == h1;
        let m2 = choose|m: int| 0 <= m < s1.len() && s1[m] == h2;
        lemma_goes_before_total_order(keys, descending, h1 as int, h2 as int, h2 as int);
        if m > 0 {
            assert(goes_before(keys, descending, s2[0] as int, s2[m] as int));
        }
        if m2 > 0 {
            assert(goes_before(keys, descending, s1[0] as int, s1[m2] as int));
        }
        assert(h1 == h2);
        let t1 = s1.drop_first();
        let t2 = s2.drop_first();
        assert forall|k: int| 0 <= k < t1.len() implies t2.contains(#[trigger] t1[k]) by {
            assert(t1[k] == s1[k + 1]);
            assert(s2.contains(s1[k + 1]));
            let j = choose|j: int| 0 <= j < s2.len() && s2[j] == s1[k + 1];
            lemma_goes_before_total_order(keys, descending, h1 as int, h1 as int, h1 as int);
            assert(goes_before(keys, descending, s1[0] as int, s1[k + 1] as int));
            assert(j != 0);
            assert(t2[j - 1] == t1[k]);
        }
        assert forall|k: int| 0 <= k < t2.len() implies t1.contains(#[trigger] t2[k]) by {
            assert(t2[k] == s2[k + 1]);
            assert(s1.contains(s2[k + 1]));
            let j = choose|j: int| 0 <= j < s1.len() && s1[j] == s2[k + 1];
            lemma_goes_before_total_order(keys, descending, h2 as int, h2 as int, h2 as int);
            assert(goes_before(keys, descending, s2[0] as int, s2[k + 1] as int));
            assert(j != 0);
            assert(t1[j - 1] == t2[k]);
        }
        assert forall|a: int, b: int| 0 <= a < b < t1.len() implies goes_before(
            keys,
            descending,
            #[trigger] t1[a] as int,
            #[trigger] t1[b] as int,
        ) by {
            assert(t1[a] == s1[a + 1] && t1[b] == s1[b + 1]);
        }
        assert forall|a: int, b: int| 0 <= a < b < t2.len() implies goes_before(
            keys,
            descending,
            #[trigger] t2[a] as int,
            #[trigger] t2[b] as int,
        ) by {
            assert(t2[a] == s2[a + 1] && t2[b] == s2[b + 1]);
        }
        assert forall|k: int| 0 <= k < t1.len() implies #[trigger] t1[k] < keys.len() by {
            assert(t1[k] == s1[k + 1]);
        }
        assert forall|k: int| 0 <= k < t2.len() implies #[trigger] t2[k] < keys.len() by {
            assert(t2[k] == s2[k + 1]);
        }
        lemma_sorted_same_elements_equal(keys, descending, t1, t2);
        assert(s1 =~= s2) by {
            assert forall|k: int| 0 <= k < s1.len() implies s1[k] == s2[k] by {
                if k > 0 {
                    assert(s1[k] == t1[k - 1]);
                    assert(s2[k] == t2[k - 1]);
                }
            }
        }
    }
}

fn take_slot<T>(v: &mut Vec<Option<T>>, i: usize) -> (r: Option<T>)
    requires
        i < old(v).len(),
    ensures
        r == old(v)@[i as int],
        final(v)@ == old(v)@.update(i as int, None),
{
    let mut slot: Option<T> = None;
    std::mem::swap(&mut slot, &mut v[i]);
    slot
}

/// Moves the items into the order given by `order`, which lists every index
/// of `items` exactly once.
pub fn arrange<T>(items: Vec<T>, order: &Vec<usize>) -> (out: Vec<T>)
    requires
        order.len() == items.len(),
        forall|k: int| 0 <= k < order.len() ==> #[trigger] order@[k] < items.len(),
        forall|a: int, b: int| 0 <= a < b < order.len() ==> #[trigger] order@[a] != #[trigger] order@[b],
    ensures
        arranged(items@, order@, out@),
{
    let n = items.len();
    let ghost orig = items@;
    let mut rest = items;
    let mut slots: Vec<Option<T>> = Vec::new();
    while rest.len() > 0
        invariant
            rest.len() + slots.len() == n,
            orig.len() == n,
            rest@ == orig.take(rest.len() as int),
            forall|k: int| 0 <= k < slots.len() ==> #[trigger] slots@[k] == Some(orig[n - 1 - k]),
        decreases rest.len(),
    {
        let x = rest.pop().unwrap();
        slots.push(Some(x));
        assert(rest@ =~= orig.take(rest.len() as int));
    }
    let mut out: Vec<T> = Vec::new();
    let mut k: usize = 0;
    while k < n
        invariant
            order.len() == n,
            orig.len() == n,
            slots.len() == n,
            k <= n,
            out.len() == k,
            forall|q: int| 0 <= q < order.len() ==> #[trigger] order@[q] < n,
            forall|a: int, b: int| 0 <= a < b < order.len() ==> #[trigger] order@[a] != #[trigger] order@[b],
            forall|q: int| 0 <= q < k ==> #[trigger] out@[q] == orig[order@[q] as int],
            forall|j: int|
                0 <= j < n && (forall|q: int| 0 <= q < k ==> order@[q] != j) ==> #[trigger] slots@[n - 1 - j]
                    == Some(orig[j]),
        decreases n - k,
    {
        let j = order[k];
        proof {
            assert forall|q: int| 0 <= q < k implies order@[q] != j by {
                assert(order@[q] != order@[k as int]);
            }
        }
        let x = take_slot(&mut slots, n - 1 - j);
        out.push(x.unwrap());
        proof {
            assert forall|jj: int|
                0 <= jj < n && (forall|q: int| 0 <= q < k + 1 ==> order@[q] != jj) implies #[trigger] slots@[n
                - 1 - jj] == Some(orig[jj]) by {
                assert(order@[k as int] != jj);
                assert(forall|q: int| 0 <= q < k ==> order@[q] != jj);
            }
        }
        k = k + 1;
    }
    out
}

} // verus!
