//! Byte strings: the order that names are ranked by, and the split of a line into fields.

use vstd::prelude::*;

verus! {

/// The byte that separates the fields of a line.
pub const COMMA: u8 = 44;

/// The views of a list of byte strings.
pub open spec fn texts(v: Seq<Vec<u8>>) -> Seq<Seq<u8>> {
    Seq::new(v.len(), |i: int| v[i]@)
}

/// `a` comes before `b` in dictionary order, given that the two agree before position `i`.
pub open spec fn precedes_from(a: Seq<u8>, b: Seq<u8>, i: int) -> bool
    decreases b.len() - i,
{
    if i < 0 || i >= b.len() {
        false
    } else if i >= a.len() {
        true
    } else if a[i] != b[i] {
        a[i] < b[i]
    } else {
        precedes_from(a, b, i + 1)
    }
}

/// `a` comes strictly before `b` in dictionary order on bytes: at the first position where
/// they differ `a` holds the smaller byte, or `a` is a proper prefix of `b`.
pub open spec fn precedes(a: Seq<u8>, b: Seq<u8>) -> bool {
    precedes_from(a, b, 0)
}

/// How one name stands to another in dictionary order.
#[derive(Clone, Copy, Debug, PartialEq, Eq)]
pub enum NameOrder {
    Before,
    Same,
    After,
}

proof fn lemma_agree_then_equal_or_ordered(a: Seq<u8>, b: Seq<u8>, i: int)
    requires
        0 <= i <= a.len(),
        i <= b.len(),
        forall|j: int| 0 <= j < i ==> a[j] == b[j],
    ensures
        a == b || precedes_from(a, b, i) || precedes_from(b, a, i),
        !(precedes_from(a, b, i) && precedes_from(b, a, i)),
        a == b ==> !precedes_from(a, b, i),
    decreases a.len() - i,
{
    if i >= a.len() || i >= b.len() {
        if a.len() == b.len() {
            assert(a =~= b);
        }
    } else if a[i] == b[i] {
        lemma_agree_then_equal_or_ordered(a, b, i + 1);
    }
}

/// No name comes before itself.
pub proof fn lemma_precedes_irreflexive(a: Seq<u8>)
    ensures
        !precedes(a, a),
{
    lemma_agree_then_equal_or_ordered(a, a, 0);
}

/// Of two names at most one comes before the other.
pub proof fn lemma_precedes_asymmetric(a: Seq<u8>, b: Seq<u8>)
    ensures
        !(precedes(a, b) && precedes(b, a)),
{
    lemma_agree_then_equal_or_ordered(a, b, 0);
}

/// Two different names are always ordered one way or the other.
pub proof fn lemma_precedes_total(a: Seq<u8>, b: Seq<u8>)
    ensures
        a == b || precedes(a, b) || precedes(b, a),
{
    lemma_agree_then_equal_or_ordered(a, b, 0);
}

proof fn lemma_precedes_from_transitive(a: Seq<u8>, b: Seq<u8>, c: Seq<u8>, i: int)
    requires
        0 <= i,
        precedes_from(a, b, i),
        precedes_from(b, c, i),
    ensures
        precedes_from(a, c, i),
    decreases c.len() - i,
{
    if i < a.len() && i < b.len() && i < c.len() && a[i] == b[i] && b[i] == c[i] {
        lemma_precedes_from_transitive(a, b, c, i + 1);
    }
}

/// Dictionary order is transitive.
pub proof fn lemma_precedes_transitive(a: Seq<u8>, b: Seq<u8>, c: Seq<u8>)
    requires
        precedes(a, b),
        precedes(b, c),
    ensures
        precedes(a, c),
{
    lemma_precedes_from_transitive(a, b, c, 0);
}

/// Compares two names in dictionary order on bytes.
pub fn compare_names(a: &[u8], b: &[u8]) -> (r: NameOrder)
    ensures
        r == NameOrder::Before <==> precedes(a@, b@),
        r == NameOrder::Same <==> a@ == b@,
        r == NameOrder::After <==> precedes(b@, a@),
{
    let mut i: usize = 0;
    while i < a.len() && i < b.len()
        invariant
            i <= a.len(),
            i <= b.len(),
            forall|j: int| 0 <= j < i ==> a@[j] == b@[j],
            precedes(a@, b@) == precedes_from(a@, b@, i as int),
            precedes(b@, a@) == precedes_from(b@, a@, i as int),
        decreases a.len() - i,
    {
        if a[i] != b[i] {
            proof {
                lemma_agree_then_equal_or_ordered(a@, b@, i as int);
            }
            if a[i] < b[i] {
                return NameOrder::Before;
            } else {
                return NameOrder::After;
            }
        }
        i += 1;
    }
    proof {
        lemma_agree_then_equal_or_ordered(a@, b@, i as int);
    }
    if a.len() == b.len() {
        NameOrder::Same
    } else if a.len() < b.len() {
        NameOrder::Before
    } else {
        NameOrder::After
    }
}

/// The fields of a line: the stretches between its commas, in order. A line without a comma
/// is one field, and so is the empty line; a comma at the end starts a last, empty field.
pub open spec fn split(line: Seq<u8>) -> Seq<Seq<u8>>
    decreases line.len(),
{
    if line.len() == 0 {
        seq![Seq::<u8>::empty()]
    } else {
        let before = split(line.drop_last());
        if line.last() == COMMA {
            before.push(Seq::<u8>::empty())
        } else {
            before.update(before.len() - 1, before.last().push(line.last()))
        }
    }
}

/// The fields written out again with a comma between each two.
pub open spec fn join(fields: Seq<Seq<u8>>) -> Seq<u8>
    decreases fields.len(),
{
    if fields.len() == 0 {
        Seq::<u8>::empty()
    } else if fields.len() == 1 {
        fields[0]
    } else {
        join(fields.drop_last()).push(COMMA) + fields.last()
    }
}

/// A line always has a first field, and no field holds a comma.
pub proof fn lemma_split_fields(line: Seq<u8>)
    ensures
        split(line).len() >= 1,
        forall|i: int, j: int|
            0 <= i < split(line).len() && 0 <= j < split(line)[i].len() ==> split(line)[i][j]
                != COMMA,
    decreases line.len(),
{
    if line.len() > 0 {
        lemma_split_fields(line.drop_last());
    }
}

/// Splitting loses nothing: the fields joined by commas are the line.
pub proof fn lemma_join_split(line: Seq<u8>)
    ensures
        join(split(line)) == line,
    decreases line.len(),
{
    if line.len() == 0 {
        assert(join(split(line)) =~= line);
    } else {
        let shorter = line.drop_last();
        let before = split(shorter);
        lemma_split_fields(shorter);
        lemma_join_split(shorter);
        if line.last() == COMMA {
            let fields = before.push(Seq::<u8>::empty());
            assert(fields.drop_last() =~= before);
            assert(join(fields) =~= join(before).push(COMMA));
            assert(shorter.push(COMMA) =~= line);
        } else {
            let grown = before.last().push(line.last());
            let fields = before.update(before.len() - 1, grown);
            if before.len() == 1 {
                assert(join(fields) =~= join(before).push(line.last()));
            } else {
                assert(fields.drop_last() =~= before.drop_last());
                assert(join(fields) =~= join(before).push(line.last()));
            }
            assert(shorter.push(line.last()) =~= line);
        }
    }
}

/// Splits a line into its fields at every comma. Nothing is quoted or escaped.
pub fn split_fields(line: &[u8]) -> (fields: Vec<Vec<u8>>)
    ensures
        texts(fields@) == split(line@),
        fields@.len() >= 1,
{
    let mut fields: Vec<Vec<u8>> = Vec::new();
    let mut current: Vec<u8> = Vec::new();
    let mut i: usize = 0;
    assert(line@.take(0) =~= Seq::<u8>::empty());
    assert(texts(fields@).push(current@) =~= split(line@.take(0)));
    while i < line.len()
        invariant
            i <= line.len(),
            texts(fields@).push(current@) == split(line@.take(i as int)),
        decreases line.len() - i,
    {
        let byte = line[i];
        proof {
            let prefix = line@.take(i + 1);
            assert(prefix.drop_last() =~= line@.take(i as int));
            assert(prefix.last() == byte);
        }
        let ghost before = texts(fields@).push(current@);
        if byte == COMMA {
            fields.push(current);
            current = Vec::new();
            assert(texts(fields@).push(current@) =~= before.push(Seq::<u8>::empty()));
        } else {
            current.push(byte);
            assert(texts(fields@).push(current@) =~= before.update(
                before.len() - 1,
                before.last().push(byte),
            ));
        }
        i += 1;
    }
    assert(line@.take(i as int) =~= line@);
    let ghost before = texts(fields@).push(current@);
    fields.push(current);
    assert(texts(fields@) =~= before);
    fields
}

} // verus!
