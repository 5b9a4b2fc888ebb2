//! What zero and sum claims say of a column of field elements.
//!
//! A column is a sequence of residues of a prime field. The field enters only
//! through its modulus and through the property that a product is zero only
//! where a factor is.
use vstd::prelude::*;

verus! {

/// The product of two residues.
pub open spec fn residue_product(a: int, b: int, p: int) -> int {
    (a * b) % p
}

/// Whether arithmetic modulo `p` is that of a field, as far as products are
/// concerned.
pub open spec fn field_modulus(p: int) -> bool {
    &&& p > 1
    &&& forall|a: int, b: int|
        0 <= a < p && 0 <= b < p && #[trigger] residue_product(a, b, p) == 0 ==> a == 0 || b == 0
}

/// Whether every value is a residue.
pub open spec fn residues(s: Seq<int>, p: int) -> bool {
    forall|i: int| 0 <= i < s.len() ==> 0 <= #[trigger] s[i] < p
}

/// The residue below `x`.
pub open spec fn minus_one(x: int, p: int) -> int {
    if x == 0 {
        p - 1
    } else {
        x - 1
    }
}

/// The zero claim on `x * (x - 1)`.
pub open spec fn boolean_claim(s: Seq<int>, p: int) -> bool {
    forall|i: int|
        0 <= i < s.len() ==> residue_product(#[trigger] s[i], minus_one(s[i], p), p) == 0
}

/// Whether every value is zero or one.
pub open spec fn is_boolean(s: Seq<int>) -> bool {
    forall|i: int| 0 <= i < s.len() ==> (#[trigger] s[i] == 0 || s[i] == 1)
}

/// The sum of a column over the integers.
pub open spec fn column_sum(s: Seq<int>) -> int
    decreases s.len(),
{
    if s.len() == 0 {
        0
    } else {
        column_sum(s.drop_last()) + s.last()
    }
}

/// The claim that a column sums to `total` in the field.
pub open spec fn sum_claim(s: Seq<int>, total: int, p: int) -> bool {
    column_sum(s) % p == total
}

/// The zero claim on the difference of two columns.
pub open spec fn equal_claim(a: Seq<int>, b: Seq<int>, p: int) -> bool {
    a.len() == b.len() && forall|i: int| 0 <= i < a.len() ==> (#[trigger] a[i] - b[i]) % p == 0
}

/// The number of ones.
pub open spec fn ones(s: Seq<int>) -> nat
    decreases s.len(),
{
    if s.len() == 0 {
        0
    } else {
        ones(s.drop_last()) + (if s.last() == 1 {
            1nat
        } else {
            0nat
        })
    }
}

/// In a field, the zero claim on `x * (x - 1)` leaves only zeros and ones.
pub proof fn boolean_claim_is_boolean(s: Seq<int>, p: int)
    requires
        field_modulus(p),
        residues(s, p),
        boolean_claim(s, p),
    ensures
        is_boolean(s),
{
    assert forall|i: int| 0 <= i < s.len() implies (#[trigger] s[i] == 0 || s[i] == 1) by {
        let x = s[i];
        assert(residue_product(x, minus_one(x, p), p) == 0);
    }
}

/// The zero claim on `x * (x - 1)` holds of zeros and ones.
pub proof fn boolean_values_pass(s: Seq<int>, p: int)
    requires
        p > 1,
        is_boolean(s),
    ensures
        boolean_claim(s, p),
{
    assert forall|i: int| 0 <= i < s.len() implies residue_product(
        #[trigger] s[i],
        minus_one(s[i], p),
        p,
    ) == 0 by {
        assert(s[i] == 0 || s[i] == 1);
        vstd::arithmetic::div_mod::lemma_small_mod(0, p as nat);
        assert(minus_one(1, p) == 0);
        assert(0 * minus_one(0, p) == 0) by (nonlinear_arith);
    }
}

/// The sum of a Boolean column is the number of its ones.
pub proof fn boolean_sum_counts(s: Seq<int>)
    requires
        is_boolean(s),
    ensures
        column_sum(s) == ones(s),
        ones(s) <= s.len(),
    decreases s.len(),
{
    if s.len() > 0 {
        let t = s.drop_last();
        assert forall|i: int| 0 <= i < t.len() implies (#[trigger] t[i] == 0 || t[i] == 1) by {
            assert(t[i] == s[i]);
        }
        boolean_sum_counts(t);
        assert(s[s.len() - 1] == 0 || s[s.len() - 1] == 1);
    }
}

/// Below the modulus, a sum claim on a Boolean column fixes the number of its
/// ones.
pub proof fn sum_claim_counts(s: Seq<int>, total: int, p: int)
    requires
        is_boolean(s),
        s.len() < p,
        sum_claim(s, total, p),
    ensures
        ones(s) == total,
{
    boolean_sum_counts(s);
    vstd::arithmetic::div_mod::lemma_small_mod(ones(s), p as nat);
}

/// Equal columns, when the difference of their residues is zero in the field.
pub proof fn equal_claim_is_equal(a: Seq<int>, b: Seq<int>, p: int)
    requires
        p > 1,
        residues(a, p),
        residues(b, p),
        equal_claim(a, b, p),
    ensures
        a == b,
{
    assert forall|i: int| 0 <= i < a.len() implies a[i] == b[i] by {
        let d = a[i] - b[i];
        assert(0 <= a[i] < p);
        assert(0 <= b[i] < p);
        assert(d % p == 0);
        if d > 0 {
            vstd::arithmetic::div_mod::lemma_small_mod(d as nat, p as nat);
        } else if d < 0 {
            vstd::arithmetic::div_mod::lemma_mod_add_multiples_vanish(d, p);
            vstd::arithmetic::div_mod::lemma_small_mod((d + p) as nat, p as nat);
        }
    }
    assert(a =~= b);
}

/// Masking a column behind a prefix keeps no more ones.
pub proof fn prefix_ones(a: Seq<int>, b: Seq<int>, s: int)
    requires
        a.len() == b.len(),
        forall|i: int|
            0 <= i < a.len() ==> #[trigger] b[i] == (if i < s {
                a[i]
            } else {
                0
            }),
    ensures
        ones(b) <= ones(a),
    decreases a.len(),
{
    if a.len() > 0 {
        let c = a.drop_last();
        let d = b.drop_last();
        assert forall|i: int| 0 <= i < c.len() implies #[trigger] d[i] == (if i < s {
            c[i]
        } else {
            0
        }) by {
            assert(d[i] == b[i]);
            assert(c[i] == a[i]);
        }
        prefix_ones(c, d, s);
        let n = a.len() - 1;
        assert(b[n] == (if n < s {
            a[n]
        } else {
            0
        }));
    }
}

/// A Boolean column that loses no one behind a prefix is not changed.
pub proof fn same_ones_same_column(a: Seq<int>, b: Seq<int>, s: int)
    requires
        a.len() == b.len(),
        is_boolean(a),
        ones(a) == ones(b),
        forall|i: int|
            0 <= i < a.len() ==> #[trigger] b[i] == (if i < s {
                a[i]
            } else {
                0
            }),
    ensures
        a == b,
    decreases a.len(),
{
    if a.len() > 0 {
        let c = a.drop_last();
        let d = b.drop_last();
        assert forall|i: int| 0 <= i < c.len() implies #[trigger] d[i] == (if i < s {
            c[i]
        } else {
            0
        }) by {
            assert(d[i] == b[i]);
            assert(c[i] == a[i]);
        }
        assert forall|i: int| 0 <= i < c.len() implies (#[trigger] c[i] == 0 || c[i] == 1) by {
            assert(c[i] == a[i]);
        }
        prefix_ones(c, d, s);
        let n = a.len() - 1;
        assert(a[n] == 0 || a[n] == 1);
        assert(b[n] == (if n < s {
            a[n]
        } else {
            0
        }));
        same_ones_same_column(c, d, s);
        assert(a =~= c.push(a[n]));
        assert(b =~= d.push(b[n]));
    }
    assert(a =~= b);
}

/// Equal columns meet the claim that they are.
pub proof fn equal_columns_pass(a: Seq<int>, p: int)
    requires
        p > 1,
    ensures
        equal_claim(a, a, p),
{
    assert forall|i: int| 0 <= i < a.len() implies (#[trigger] a[i] - a[i]) % p == 0 by {
        vstd::arithmetic::div_mod::lemma_small_mod(0, p as nat);
    }
}

} // verus!
