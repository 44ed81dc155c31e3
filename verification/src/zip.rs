use vstd::prelude::*;
use vstd::string::StrSliceExecFns;
use vstd::string::StringExecFns;

use crate::error::ProgramError;
use crate::text::{
    chars_of, has_prefix_at, join, law_prefix_in_first_piece, law_split_join, lemma_split_nonempty,
    lemma_split_prefix_stable, lemma_split_step,
    split_fields, split_on, views,
};

verus! {

broadcast use vstd::string::group_string_axioms;

/// The lines of the zip code table.
pub open spec fn zip_lines(zip_data: Seq<char>) -> Seq<Seq<char>> {
    split_on(zip_data, '\n')
}

/// Line `i` of the table is the first one that begins with `zip`.
pub open spec fn is_first_zip_line(zip_data: Seq<char>, zip: Seq<char>, i: int) -> bool {
    &&& 0 <= i < zip_lines(zip_data).len()
    &&& zip.is_prefix_of(zip_lines(zip_data)[i])
    &&& forall|j: int| 0 <= j < i ==> !zip.is_prefix_of(#[trigger] zip_lines(zip_data)[j])
}

/// No line of the table begins with `zip`.
pub open spec fn zip_absent(zip_data: Seq<char>, zip: Seq<char>) -> bool {
    forall|j: int|
        0 <= j < zip_lines(zip_data).len() ==> !zip.is_prefix_of(#[trigger] zip_lines(zip_data)[j])
}

/// The fields of a line that begins with `zip` join back into the line,
/// and, when `zip` holds no comma, the first of them begins with `zip`.
proof fn lemma_zip_fields(line: Seq<char>, zip: Seq<char>)
    requires
        zip.is_prefix_of(line),
    ensures
        split_on(line, ',').len() >= 1,
        join(split_on(line, ','), ',') == line,
        !zip.contains(',') ==> zip.is_prefix_of(split_on(line, ',')[0]),
{
    lemma_split_nonempty(line, ',');
    law_split_join(line, ',');
    if !zip.contains(',') {
        law_prefix_in_first_piece(line, ',', zip);
    }
}

/// Looks up `zip` in `zip_data`, a table of one record per line with the
/// fields `zip,city,state,latitude,longitude`, and returns the comma-separated
/// fields of the first line that begins with `zip`.
///
/// A zip code must be five bytes long; a code that no line begins with is
/// reported as not located.
pub fn zip_lookup(zip_data: &str, zip: &str) -> (res: Result<Vec<String>, ProgramError>)
    ensures
        zip.len() != 5 ==> (res matches Err(e) && e.message() == "zip code must be five digits"@),
        zip.len() == 5 ==> match res {
            Ok(fields) => exists|i: int|
                {
                    &&& 0 <= i < split_on(zip_data@, '\n').len()
                    &&& zip@.is_prefix_of(#[trigger] split_on(zip_data@, '\n')[i])
                    &&& forall|j: int|
                        0 <= j < i ==> !zip@.is_prefix_of(#[trigger] split_on(zip_data@, '\n')[j])
                    &&& views(fields@) == split_on(split_on(zip_data@, '\n')[i], ',')
                    &&& join(views(fields@), ',') == split_on(zip_data@, '\n')[i]
                },
            Err(e) => (forall|j: int|
                0 <= j < split_on(zip_data@, '\n').len() ==> !zip@.is_prefix_of(
                    #[trigger] split_on(zip_data@, '\n')[j],
                )) && e.message() == "zip code "@ + zip@ + " could not be located"@,
        },
        res matches Ok(fields) ==> fields@.len() >= 1 && (!zip@.contains(',') ==> zip@.is_prefix_of(
            fields@[0]@,
        )),
{
    if zip.len() != 5 {
        return Err(ProgramError::General(String::from_str("zip code must be five digits")));
    }
    let data = chars_of(zip_data);
    let key = chars_of(zip);
    let n = data.len();
    let mut start: usize = 0;
    let mut i: usize = 0;
    let ghost mut done: Seq<Seq<char>> = Seq::empty();
    assert(data@.take(0) =~= Seq::<char>::empty());
    assert(done.push(data@.subrange(0, 0)) =~= seq![Seq::<char>::empty()]);
    while i < n
        invariant
            n == data@.len(),
            data@ == zip_data@,
            key@ == zip@,
            zip.len() == 5,
            start <= i <= n,
            split_on(data@.take(i as int), '\n') == done.push(data@.subrange(start as int, i as int)),
            forall|k: int| 0 <= k < done.len() ==> !zip@.is_prefix_of(#[trigger] done[k]),
        decreases n - i,
    {
        proof {
            lemma_split_step(data@, '\n', i as int);
        }
        if data[i] == '\n' {
            if has_prefix_at(&data, start, i, &key) {
                proof {
                    lemma_split_prefix_stable(data@, '\n', i + 1, n as int);
                    assert(data@.take(n as int) =~= data@);
                    let k = done.len() as int;
                    assert(zip_lines(zip_data@)[k] == data@.subrange(start as int, i as int));
                    assert forall|j: int| 0 <= j < k implies !zip@.is_prefix_of(
                        #[trigger] zip_lines(zip_data@)[j],
                    ) by {
                        assert(zip_lines(zip_data@)[j] == done[j]);
                    }
                    assert(is_first_zip_line(zip_data@, zip@, k));
                }
                let line = zip_data.substring_char(start, i);
                let fields = split_fields(line, ',');
                proof {
                    lemma_zip_fields(line@, zip@);
                    assert(views(fields@).len() == fields@.len());
                    assert(views(fields@)[0] == fields@[0]@);
                }
                return Ok(fields);
            }
            proof {
                done = done.push(data@.subrange(start as int, i as int));
            }
            start = i + 1;
            assert(data@.subrange(start as int, start as int) =~= Seq::<char>::empty());
        } else {
            assert(data@.subrange(start as int, i + 1) =~= data@.subrange(
                start as int,
                i as int,
            ).push(data@[i as int]));
        }
        i += 1;
    }
    assert(data@.take(n as int) =~= data@);
    if has_prefix_at(&data, start, n, &key) {
        let k = Ghost(done.len() as int);
        assert(is_first_zip_line(zip_data@, zip@, k@)) by {
            assert forall|j: int| 0 <= j < k@ implies !zip@.is_prefix_of(
                #[trigger] zip_lines(zip_data@)[j],
            ) by {
                assert(zip_lines(zip_data@)[j] == done[j]);
            }
        }
        let line = zip_data.substring_char(start, n);
        let fields = split_fields(line, ',');
        proof {
            lemma_zip_fields(line@, zip@);
            assert(views(fields@).len() == fields@.len());
            assert(views(fields@)[0] == fields@[0]@);
        }
        return Ok(fields);
    }
    assert forall|j: int| 0 <= j < zip_lines(zip_data@).len() implies !zip@.is_prefix_of(
        #[trigger] zip_lines(zip_data@)[j],
    ) by {
        if j < done.len() {
            assert(zip_lines(zip_data@)[j] == done[j]);
        }
    }
    let msg = String::from_str("zip code ").concat(zip).concat(" could not be located");
    Err(ProgramError::General(msg))
}

} // verus!
