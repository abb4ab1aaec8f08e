//! The order of field names is a total order, and sorting by it gives the
//! same for the same fields, in whatever order they come.

use crate::table::{canonical, insert_by_name, Signature};
use crate::text::{bytes_le, key_le};
use crate::types::Shape;
use crate::value::distinct_names;
use vstd::prelude::*;
use vstd::utf8::{decode_utf8, encode_utf8, encode_utf8_decode_utf8};

verus! {

/// Of two byte strings one comes first, or they are equal.
pub proof fn lemma_bytes_le_total(a: Seq<u8>, b: Seq<u8>)
    ensures
        bytes_le(a, b) || bytes_le(b, a),
    decreases a.len(),
{
    if a.len() > 0 && b.len() > 0 && a[0] == b[0] {
        lemma_bytes_le_total(a.drop_first(), b.drop_first());
    }
}

/// Two byte strings that each come before the other are one.
pub proof fn lemma_bytes_le_antisymmetric(a: Seq<u8>, b: Seq<u8>)
    requires
        bytes_le(a, b),
        bytes_le(b, a),
    ensures
        a == b,
    decreases a.len(),
{
    if a.len() == 0 || b.len() == 0 {
        assert(a =~= b);
    } else {
        lemma_bytes_le_antisymmetric(a.drop_first(), b.drop_first());
        assert(a =~= seq![a[0]] + a.drop_first());
        assert(b =~= seq![b[0]] + b.drop_first());
    }
}

/// What comes before something that comes before a third comes before the
/// third.
pub proof fn lemma_bytes_le_transitive(a: Seq<u8>, b: Seq<u8>, c: Seq<u8>)
    requires
        bytes_le(a, b),
        bytes_le(b, c),
    ensures
        bytes_le(a, c),
    decreases a.len(),
{
    if a.len() > 0 && b.len() > 0 && c.len() > 0 && a[0] == b[0] && b[0] == c[0] {
        lemma_bytes_le_transitive(a.drop_first(), b.drop_first(), c.drop_first());
    }
}

/// Of two names one comes first, or they are equal.
pub proof fn lemma_key_le_total(a: Seq<char>, b: Seq<char>)
    ensures
        key_le(a, b) || key_le(b, a),
{
    lemma_bytes_le_total(encode_utf8(a), encode_utf8(b));
}

/// Two names that each come before the other are one.
pub proof fn lemma_key_le_antisymmetric(a: Seq<char>, b: Seq<char>)
    requires
        key_le(a, b),
        key_le(b, a),
    ensures
        a == b,
{
    lemma_bytes_le_antisymmetric(encode_utf8(a), encode_utf8(b));
    encode_utf8_decode_utf8(a);
    encode_utf8_decode_utf8(b);
    assert(decode_utf8(encode_utf8(a)) == a);
    assert(decode_utf8(encode_utf8(b)) == b);
}

/// The order of names is transitive.
pub proof fn lemma_key_le_transitive(a: Seq<char>, b: Seq<char>, c: Seq<char>)
    requires
        key_le(a, b),
        key_le(b, c),
    ensures
        key_le(a, c),
{
    lemma_bytes_le_transitive(encode_utf8(a), encode_utf8(b), encode_utf8(c));
}

/// Whether the fields stand in the order of their names.
pub open spec fn sorted_by_name(fields: Signature) -> bool {
    forall|i: int, j: int| 0 <= i < j < fields.len() ==> key_le(fields[i].0, fields[j].0)
}

/// A field put into a list is in the list, with all that were there, and
/// nothing else.
pub proof fn lemma_insert_by_name_holds(sorted: Signature, field: (Seq<char>, Shape))
    ensures
        insert_by_name(sorted, field).len() == sorted.len() + 1,
        insert_by_name(sorted, field).contains(field),
        forall|i: int|
            0 <= i < sorted.len() ==> insert_by_name(sorted, field).contains(#[trigger] sorted[i]),
        forall|i: int|
            0 <= i < insert_by_name(sorted, field).len() ==> (#[trigger] insert_by_name(
                sorted,
                field,
            )[i]) == field || sorted.contains(insert_by_name(sorted, field)[i]),
    decreases sorted.len(),
{
    let after = insert_by_name(sorted, field);
    if sorted.len() == 0 {
        assert(after[0] == field);
    } else if key_le(sorted.last().0, field.0) {
        assert(after[sorted.len() as int] == field);
        assert forall|i: int| 0 <= i < sorted.len() implies after.contains(
            #[trigger] sorted[i],
        ) by {
            assert(after[i] == sorted[i]);
        }
        assert forall|i: int| 0 <= i < after.len() implies (#[trigger] after[i]) == field
            || sorted.contains(after[i]) by {
            if i < sorted.len() {
                assert(sorted[i] == after[i]);
            }
        }
    } else {
        let front = sorted.drop_last();
        let inner = insert_by_name(front, field);
        lemma_insert_by_name_holds(front, field);
        let at = choose|i: int| 0 <= i < inner.len() && inner[i] == field;
        assert(after[at] == field);
        assert forall|i: int| 0 <= i < sorted.len() implies after.contains(
            #[trigger] sorted[i],
        ) by {
            if i < front.len() {
                assert(front[i] == sorted[i]);
                let k = choose|k: int| 0 <= k < inner.len() && inner[k] == front[i];
                assert(after[k] == sorted[i]);
            } else {
                assert(after[inner.len() as int] == sorted[i]);
            }
        }
        assert forall|i: int| 0 <= i < after.len() implies (#[trigger] after[i]) == field
            || sorted.contains(after[i]) by {
            if i < inner.len() {
                assert(after[i] == inner[i]);
                if inner[i] != field {
                    let k = choose|k: int| 0 <= k < front.len() && front[k] == inner[i];
                    assert(sorted[k] == inner[i]);
                }
            } else {
                assert(sorted[sorted.len() - 1] == after[i]);
            }
        }
    }
}

/// A field put into a sorted list leaves it sorted.
pub proof fn lemma_insert_by_name_sorted(sorted: Signature, field: (Seq<char>, Shape))
    requires
        sorted_by_name(sorted),
    ensures
        sorted_by_name(insert_by_name(sorted, field)),
    decreases sorted.len(),
{
    let after = insert_by_name(sorted, field);
    if sorted.len() == 0 {
    } else if key_le(sorted.last().0, field.0) {
        assert forall|i: int, j: int| 0 <= i < j < after.len() implies key_le(
            after[i].0,
            after[j].0,
        ) by {
            if j == sorted.len() {
                if i < sorted.len() - 1 {
                    lemma_key_le_transitive(sorted[i].0, sorted.last().0, field.0);
                }
            }
        }
    } else {
        let front = sorted.drop_last();
        let inner = insert_by_name(front, field);
        assert(sorted_by_name(front)) by {
            assert forall|i: int, j: int| 0 <= i < j < front.len() implies key_le(
                front[i].0,
                front[j].0,
            ) by {
                assert(front[i] == sorted[i] && front[j] == sorted[j]);
            }
        }
        lemma_insert_by_name_sorted(front, field);
        lemma_insert_by_name_holds(front, field);
        lemma_key_le_total(sorted.last().0, field.0);
        assert forall|i: int, j: int| 0 <= i < j < after.len() implies key_le(
            after[i].0,
            after[j].0,
        ) by {
            if j < inner.len() {
                assert(after[i] == inner[i] && after[j] == inner[j]);
            } else {
                assert(after[i] == inner[i]);
                if inner[i] != field {
                    let k = choose|k: int| 0 <= k < front.len() && front[k] == inner[i];
                    assert(front[k] == sorted[k]);
                }
            }
        }
    }
}

/// What sorting gives is sorted, and holds the fields that were given, no
/// more and no fewer.
pub proof fn lemma_canonical_sorted(signature: Signature)
    ensures
        sorted_by_name(canonical(signature)),
        canonical(signature).len() == signature.len(),
        forall|field: (Seq<char>, Shape)|
            canonical(signature).contains(field) <==> signature.contains(field),
    decreases signature.len(),
{
    if signature.len() > 0 {
        let front = signature.drop_last();
        let last = signature.last();
        lemma_canonical_sorted(front);
        lemma_insert_by_name_sorted(canonical(front), last);
        lemma_insert_by_name_holds(canonical(front), last);
        let after = canonical(signature);
        assert forall|field: (Seq<char>, Shape)| after.contains(field) implies signature.contains(
            field,
        ) by {
            let i = choose|i: int| 0 <= i < after.len() && after[i] == field;
            if after[i] == last {
                assert(signature[signature.len() - 1] == field);
            } else {
                assert(canonical(front).contains(field));
                assert(front.contains(field));
                let k = choose|k: int| 0 <= k < front.len() && front[k] == field;
                assert(signature[k] == field);
            }
        }
        assert forall|field: (Seq<char>, Shape)| signature.contains(field) implies after.contains(
            field,
        ) by {
            let i = choose|i: int| 0 <= i < signature.len() && signature[i] == field;
            if i < front.len() {
                assert(front[i] == field);
                assert(front.contains(field));
                assert(canonical(front).contains(field));
                let k = choose|k: int|
                    0 <= k < canonical(front).len() && canonical(front)[k] == field;
                assert(after.contains(canonical(front)[k]));
            }
        }
    }
}

/// Two fields of different names can be put into a list in either order.
pub proof fn lemma_insert_by_name_commutes(
    sorted: Signature,
    x: (Seq<char>, Shape),
    y: (Seq<char>, Shape),
)
    requires
        x.0 != y.0,
    ensures
        insert_by_name(insert_by_name(sorted, x), y) == insert_by_name(
            insert_by_name(sorted, y),
            x,
        ),
    decreases sorted.len(),
{
    lemma_key_le_total(x.0, y.0);
    if key_le(x.0, y.0) && key_le(y.0, x.0) {
        lemma_key_le_antisymmetric(x.0, y.0);
    }
    let with_x = insert_by_name(sorted, x);
    let with_y = insert_by_name(sorted, y);
    if sorted.len() == 0 {
        assert(with_x.last() == x && with_x.drop_last() =~= sorted);
        assert(with_y.last() == y && with_y.drop_last() =~= sorted);
        assert(insert_by_name(with_x, y) =~= insert_by_name(with_y, x));
    } else {
        let last = sorted.last();
        let front = sorted.drop_last();
        if key_le(last.0, x.0) && key_le(last.0, y.0) {
            assert(with_x.last() == x && with_x.drop_last() =~= sorted);
            assert(with_y.last() == y && with_y.drop_last() =~= sorted);
        } else if key_le(last.0, x.0) {
            if key_le(x.0, y.0) {
                lemma_key_le_transitive(last.0, x.0, y.0);
            }
            assert(with_x.last() == x && with_x.drop_last() =~= sorted);
            assert(with_y.last() == last && with_y.drop_last() =~= insert_by_name(front, y));
        } else if key_le(last.0, y.0) {
            if key_le(y.0, x.0) {
                lemma_key_le_transitive(last.0, y.0, x.0);
            }
            assert(with_y.last() == y && with_y.drop_last() =~= sorted);
            assert(with_x.last() == last && with_x.drop_last() =~= insert_by_name(front, x));
        } else {
            lemma_insert_by_name_commutes(front, x, y);
            assert(with_x.last() == last && with_x.drop_last() =~= insert_by_name(front, x));
            assert(with_y.last() == last && with_y.drop_last() =~= insert_by_name(front, y));
        }
    }
}

/// Sorting a list is sorting it without one of its fields and putting that
/// field in.
pub proof fn lemma_canonical_without(signature: Signature, at: int)
    requires
        distinct_names(signature),
        0 <= at < signature.len(),
    ensures
        canonical(signature) == insert_by_name(canonical(signature.remove(at)), signature[at]),
    decreases signature.len(),
{
    let n = signature.len() as int;
    let front = signature.drop_last();
    if at == n - 1 {
        assert(signature.remove(at) =~= front);
    } else {
        let last = signature.last();
        assert(distinct_names(front)) by {
            assert forall|i: int, j: int| 0 <= i < j < front.len() implies front[i].0
                != front[j].0 by {
                assert(front[i] == signature[i] && front[j] == signature[j]);
            }
        }
        lemma_canonical_without(front, at);
        assert(front[at] == signature[at]);
        assert(signature[at].0 != signature[n - 1].0);
        lemma_insert_by_name_commutes(canonical(front.remove(at)), signature[at], last);
        let rest = signature.remove(at);
        assert(rest.drop_last() =~= front.remove(at));
        assert(rest.last() == last);
    }
}

/// Fields of different names are different fields.
proof fn lemma_distinct_fields(signature: Signature, i: int, j: int)
    requires
        distinct_names(signature),
        0 <= i < signature.len(),
        0 <= j < signature.len(),
        signature[i] == signature[j],
    ensures
        i == j,
{
    if i < j {
        assert(signature[i].0 != signature[j].0);
    } else if j < i {
        assert(signature[j].0 != signature[i].0);
    }
}

/// Two lists of the same fields, each field under a name of its own, are
/// one shape: sorting gives the same for both, in whatever order the
/// fields come.
pub proof fn lemma_canonical_of_same_fields(a: Signature, b: Signature)
    requires
        distinct_names(a),
        distinct_names(b),
        forall|field: (Seq<char>, Shape)| a.contains(field) <==> b.contains(field),
    ensures
        canonical(a) == canonical(b),
    decreases a.len(),
{
    if a.len() == 0 {
        if b.len() > 0 {
            assert(b.contains(b[0]));
            assert(a.contains(b[0]));
        }
        assert(a =~= b);
    } else {
        let n = a.len() as int;
        let last = a.last();
        assert(a.contains(last)) by {
            assert(a[n - 1] == last);
        }
        let at = choose|at: int| 0 <= at < b.len() && b[at] == last;
        let front = a.drop_last();
        let rest = b.remove(at);
        lemma_canonical_without(b, at);
        assert(distinct_names(front)) by {
            assert forall|i: int, j: int| 0 <= i < j < front.len() implies front[i].0
                != front[j].0 by {
                assert(front[i] == a[i] && front[j] == a[j]);
            }
        }
        assert(distinct_names(rest)) by {
            assert forall|i: int, j: int| 0 <= i < j < rest.len() implies rest[i].0
                != rest[j].0 by {
                let p = if i < at {
                    i
                } else {
                    i + 1
                };
                let q = if j < at {
                    j
                } else {
                    j + 1
                };
                assert(rest[i] == b[p] && rest[j] == b[q]);
            }
        }
        assert forall|field: (Seq<char>, Shape)| front.contains(field) <==> rest.contains(
            field,
        ) by {
            if front.contains(field) {
                let i = choose|i: int| 0 <= i < front.len() && front[i] == field;
                assert(a[i] == field);
                assert(a.contains(field));
                let q = choose|q: int| 0 <= q < b.len() && b[q] == field;
                if q == at {
                    lemma_distinct_fields(a, i, n - 1);
                }
                let k = if q < at {
                    q
                } else {
                    q - 1
                };
                assert(rest[k] == field);
            }
            if rest.contains(field) {
                let k = choose|k: int| 0 <= k < rest.len() && rest[k] == field;
                let q = if k < at {
                    k
                } else {
                    k + 1
                };
                assert(b[q] == field);
                assert(b.contains(field));
                let i = choose|i: int| 0 <= i < a.len() && a[i] == field;
                if i == n - 1 {
                    lemma_distinct_fields(b, q, at);
                }
                assert(front[i] == field);
            }
        }
        lemma_canonical_of_same_fields(front, rest);
    }
}

} // verus!
