use vstd::prelude::*;

verus! {

/// One row of the contact sheet, keyed by the sheet's "Precinct" column.
#[derive(Debug)]
pub struct ContactInformation {
    pub precinct: String,
}

impl ContactInformation {
    /// Builds a contact row for the given precinct.
    pub fn new(precinct: &str) -> (info: Self)
        ensures
            info.precinct@ == precinct@,
    {
        ContactInformation { precinct: precinct.to_string() }
    }

    /// A row carries contact information when its precinct cell is not empty.
    pub open spec fn has_precinct(self) -> bool {
        self.precinct@.len() > 0
    }
}

/// The rows that remain once the leading rows without a precinct are skipped.
pub open spec fn skip_blank_rows(rows: Seq<ContactInformation>) -> Seq<ContactInformation>
    decreases rows.len(),
{
    if rows.len() > 0 && !rows[0].has_precinct() {
        skip_blank_rows(rows.drop_first())
    } else {
        rows
    }
}

/// The longest prefix of `rows` in which every row has a precinct.
pub open spec fn take_precinct_rows(rows: Seq<ContactInformation>) -> Seq<ContactInformation>
    decreases rows.len(),
{
    if rows.len() > 0 && rows[0].has_precinct() {
        seq![rows[0]] + take_precinct_rows(rows.drop_first())
    } else {
        Seq::empty()
    }
}

/// The contact block of a sheet: after the leading rows without a precinct,
/// every row up to (not including) the next row without one.
pub open spec fn contact_rows(rows: Seq<ContactInformation>) -> Seq<ContactInformation> {
    take_precinct_rows(skip_blank_rows(rows))
}

proof fn lemma_skip_blank_rows(rows: Seq<ContactInformation>) -> (start: int)
    ensures
        0 <= start <= rows.len(),
        skip_blank_rows(rows) == rows.skip(start),
        forall|i: int| 0 <= i < start ==> !(#[trigger] rows[i]).has_precinct(),
        start < rows.len() ==> rows[start].has_precinct(),
    decreases rows.len(),
{
    if rows.len() > 0 && !rows[0].has_precinct() {
        let k = lemma_skip_blank_rows(rows.drop_first());
        assert(rows.drop_first().skip(k) =~= rows.skip(k + 1));
        assert forall|i: int| 0 <= i < k + 1 implies !(#[trigger] rows[i]).has_precinct() by {
            if i > 0 {
                assert(rows[i] == rows.drop_first()[i - 1]);
            }
        }
        k + 1
    } else {
        assert(rows.skip(0) =~= rows);
        0
    }
}

proof fn lemma_take_precinct_rows(rows: Seq<ContactInformation>)
    ensures
        take_precinct_rows(rows).len() <= rows.len(),
        take_precinct_rows(rows) == rows.take(take_precinct_rows(rows).len() as int),
        forall|i: int|
            0 <= i < take_precinct_rows(rows).len() ==> (#[trigger] take_precinct_rows(rows)[i]).has_precinct(),
        take_precinct_rows(rows).len() < rows.len() ==> !rows[take_precinct_rows(rows).len() as int].has_precinct(),
    decreases rows.len(),
{
    if rows.len() > 0 && rows[0].has_precinct() {
        lemma_take_precinct_rows(rows.drop_first());
        let rest = take_precinct_rows(rows.drop_first());
        assert(seq![rows[0]] + rest =~= rows.take(rest.len() + 1 as int));
        assert forall|i: int| 0 <= i < rest.len() + 1 implies (#[trigger] (seq![rows[0]] + rest)[i]).has_precinct() by {
            if i > 0 {
                assert((seq![rows[0]] + rest)[i] == rest[i - 1]);
            }
        }
    } else {
        assert(rows.take(0) =~= Seq::<ContactInformation>::empty());
    }
}

/// The contact block is the first run of consecutive rows of the sheet that
/// have a precinct: no row before it has a precinct, the row where it starts
/// has one (so the block is empty only when no row has a precinct), every row
/// of it has one, and the row right after it has none. The result is where
/// the run starts.
pub proof fn lemma_contact_rows_are_a_precinct_run(rows: Seq<ContactInformation>) -> (start: int)
    ensures
        0 <= start,
        start + contact_rows(rows).len() <= rows.len(),
        start < rows.len() ==> rows[start].precinct@.len() > 0,
        contact_rows(rows).len() == 0 ==> forall|i: int|
            0 <= i < rows.len() ==> (#[trigger] rows[i]).precinct@.len() == 0,
        contact_rows(rows) == rows.subrange(start, start + contact_rows(rows).len()),
        forall|i: int| 0 <= i < start ==> (#[trigger] rows[i]).precinct@.len() == 0,
        forall|i: int|
            0 <= i < contact_rows(rows).len() ==> (#[trigger] contact_rows(rows)[i]).precinct@.len() > 0,
        start + contact_rows(rows).len() < rows.len() ==> rows[start
            + contact_rows(rows).len()].precinct@.len() == 0,
{
    let start = lemma_skip_blank_rows(rows);
    lemma_take_precinct_rows(rows.skip(start));
    let len = contact_rows(rows).len();
    assert(rows.skip(start).take(len as int) =~= rows.subrange(start, start + len));
    if start + len < rows.len() {
        assert(rows.skip(start)[len as int] == rows[start + len]);
    }
    start
}

/// Selecting the contact block of a contact block gives the same block back.
pub proof fn lemma_contact_rows_idempotent(rows: Seq<ContactInformation>)
    ensures
        contact_rows(contact_rows(rows)) == contact_rows(rows),
{
    let block = contact_rows(rows);
    lemma_take_precinct_rows(skip_blank_rows(rows));
    lemma_all_precinct_rows_kept(block);
}

proof fn lemma_all_precinct_rows_kept(rows: Seq<ContactInformation>)
    requires
        forall|i: int| 0 <= i < rows.len() ==> (#[trigger] rows[i]).has_precinct(),
    ensures
        skip_blank_rows(rows) == rows,
        take_precinct_rows(rows) == rows,
    decreases rows.len(),
{
    if rows.len() > 0 {
        assert forall|i: int| 0 <= i < rows.drop_first().len() implies (#[trigger] rows.drop_first()[i]).has_precinct() by {
            assert(rows.drop_first()[i] == rows[i + 1]);
        }
        lemma_all_precinct_rows_kept(rows.drop_first());
        assert(seq![rows[0]] + rows.drop_first() =~= rows);
    }
}


/// Returns `Some(row)` when the row has a precinct and `None` otherwise.
pub fn row_has_precinct(row: &ContactInformation) -> (found: Option<&ContactInformation>)
    ensures
        found == (if row.has_precinct() { Some(row) } else { None::<&ContactInformation> }),
        found is Some <==> row.precinct@.len() > 0,
{
    if row.precinct.as_str().is_empty() {
        None
    } else {
        Some(row)
    }
}

/// Selects the contact block of `rows`: it skips the rows before the first
/// row with a precinct, then keeps rows until the first row without one.
pub fn get_contact_information(rows: &Vec<ContactInformation>) -> (block: Vec<&ContactInformation>)
    ensures
        block@.map_values(|r: &ContactInformation| *r) == contact_rows(rows@),
{
    let n = rows.len();
    let mut i: usize = 0;
    assert(rows@.skip(0) =~= rows@);
    while i < n && row_has_precinct(&rows[i]).is_none()
        invariant
            n == rows@.len(),
            i <= n,
            skip_blank_rows(rows@) == skip_blank_rows(rows@.skip(i as int)),
        decreases n - i,
    {
        assert(rows@.skip(i as int).drop_first() =~= rows@.skip(i + 1));
        i = i + 1;
    }
    assert(skip_blank_rows(rows@.skip(i as int)) == rows@.skip(i as int));
    let start = i;
    let mut block: Vec<&ContactInformation> = Vec::new();
    while i < n
        invariant
            n == rows@.len(),
            start <= i <= n,
            block@.map_values(|r: &ContactInformation| *r) + take_precinct_rows(rows@.skip(i as int))
                == take_precinct_rows(rows@.skip(start as int)),
        ensures
            block@.map_values(|r: &ContactInformation| *r) == take_precinct_rows(
                rows@.skip(start as int),
            ),
        decreases n - i,
    {
        let ghost prev = block@.map_values(|r: &ContactInformation| *r);
        assert(rows@.skip(i as int).drop_first() =~= rows@.skip(i + 1));
        match row_has_precinct(&rows[i]) {
            Some(row) => {
                block.push(row);
                assert(block@.map_values(|r: &ContactInformation| *r) =~= prev.push(rows@[i as int]));
                assert(take_precinct_rows(rows@.skip(i as int)) =~= seq![rows@[i as int]]
                    + take_precinct_rows(rows@.skip(i + 1)));
                i = i + 1;
            },
            None => {
                assert(prev + Seq::<ContactInformation>::empty() =~= prev);
                break;
            },
        }
    }
    block
}

} // verus!
