use vstd::prelude::*;
use vstd::utf8::*;

use crate::strutil::utf8_string;
use crate::value::{dict_update, pairs_model, val_model, vals_model, Val, ValModel};

verus! {

/// What the CSV reader yields for this text and delimiter: one entry per
/// record, each either the record's cells as raw bytes or nothing where the
/// reader reported the record malformed. Reading depends on the text and the
/// delimiter alone.
pub uninterp spec fn csv_rows_of(text: Seq<char>, delimiter: u8) -> Seq<Option<Seq<Seq<u8>>>>;

/// Relies on `csv::ReaderBuilder` and `Reader::byte_records`: tokenizes the
/// text by standard CSV rules with the given delimiter, no header handling,
/// one entry per record; a record the reader refuses (for instance one whose
/// field count differs from the first record's) comes back as nothing.
#[verifier::external_body]
fn csv_split(text: &str, delimiter: u8) -> (r: Vec<Option<Vec<Vec<u8>>>>)
    ensures
        r.deep_view() == csv_rows_of(text@, delimiter),
{
    let mut b = csv::ReaderBuilder::new();
    b.has_headers(false);
    b.delimiter(delimiter);
    let mut rd = b.from_reader(text.as_bytes());
    rd.byte_records().map(
        |res: Result<csv::ByteRecord, csv::Error>|
            res.ok().map(|rec| rec.iter().map(|f| f.to_vec()).collect()),
    ).collect()
}

/// The cells of a data row as text: every cell decoded, or nothing when any
/// cell is not valid UTF-8 (such a row is skipped).
pub open spec fn cells_strings(cells: Seq<Seq<u8>>, acc: Seq<Seq<char>>) -> Option<Seq<Seq<char>>>
    decreases cells,
{
    if cells.len() == 0 {
        Option::Some(acc)
    } else if valid_utf8(cells[0]) {
        cells_strings(cells.drop_first(), acc.push(decode_utf8(cells[0])))
    } else {
        Option::None
    }
}

/// The cells of the header row as text: a cell that is not valid UTF-8
/// becomes an empty name.
pub open spec fn header_strings(cells: Seq<Seq<u8>>, acc: Seq<Seq<char>>) -> Seq<Seq<char>>
    decreases cells,
{
    if cells.len() == 0 {
        acc
    } else if valid_utf8(cells[0]) {
        header_strings(cells.drop_first(), acc.push(decode_utf8(cells[0])))
    } else {
        header_strings(cells.drop_first(), acc.push(Seq::empty()))
    }
}

/// The column names read from the first record; a missing first record gives
/// a single empty name.
pub open spec fn headers_of(first: Option<Seq<Seq<u8>>>) -> Seq<Seq<char>> {
    match first {
        Option::Some(cells) => header_strings(cells, Seq::empty()),
        Option::None => seq![Seq::empty()],
    }
}

/// One data row as a dictionary: cells paired with column names by position,
/// stopping at the shorter side, in the dictionaries' order-keeping way.
pub open spec fn row_dict(
    hs: Seq<Seq<char>>,
    strs: Seq<Seq<char>>,
    acc: Seq<(Seq<char>, ValModel)>,
) -> Seq<(Seq<char>, ValModel)>
    decreases hs,
{
    if hs.len() == 0 || strs.len() == 0 {
        acc
    } else {
        row_dict(
            hs.drop_first(),
            strs.drop_first(),
            dict_update(acc, hs[0], ValModel::Str(strs[0])),
        )
    }
}

/// The rows of a header-driven CSV as dictionaries, malformed and non-UTF-8
/// rows skipped.
pub open spec fn csv_body_dicts(
    rows: Seq<Option<Seq<Seq<u8>>>>,
    hs: Seq<Seq<char>>,
    acc: Seq<ValModel>,
) -> Seq<ValModel>
    decreases rows,
{
    if rows.len() == 0 {
        acc
    } else {
        match rows[0] {
            Option::Some(cells) => match cells_strings(cells, Seq::empty()) {
                Option::Some(strs) => csv_body_dicts(
                    rows.drop_first(),
                    hs,
                    acc.push(ValModel::Dict(row_dict(hs, strs, Seq::empty()))),
                ),
                Option::None => csv_body_dicts(rows.drop_first(), hs, acc),
            },
            Option::None => csv_body_dicts(rows.drop_first(), hs, acc),
        }
    }
}

/// The rows of a headerless CSV as arrays of strings, malformed and
/// non-UTF-8 rows skipped.
pub open spec fn csv_body_arrays(rows: Seq<Option<Seq<Seq<u8>>>>, acc: Seq<ValModel>) -> Seq<
    ValModel,
>
    decreases rows,
{
    if rows.len() == 0 {
        acc
    } else {
        match rows[0] {
            Option::Some(cells) => match cells_strings(cells, Seq::empty()) {
                Option::Some(strs) => csv_body_arrays(
                    rows.drop_first(),
                    acc.push(ValModel::Array(strs.map_values(|s: Seq<char>| ValModel::Str(s)))),
                ),
                Option::None => csv_body_arrays(rows.drop_first(), acc),
            },
            Option::None => csv_body_arrays(rows.drop_first(), acc),
        }
    }
}

/// What the CSV translation yields for the reader's records: with headers,
/// the first record names the columns and each later record becomes a
/// dictionary; without, each record becomes an array of strings.
pub open spec fn csv_value_of(rows: Seq<Option<Seq<Seq<u8>>>>, use_headers: bool) -> ValModel {
    if use_headers {
        if rows.len() == 0 {
            ValModel::Array(Seq::empty())
        } else {
            ValModel::Array(csv_body_dicts(rows.drop_first(), headers_of(rows[0]), Seq::empty()))
        }
    } else {
        ValModel::Array(csv_body_arrays(rows, Seq::empty()))
    }
}

/// Decodes every cell of a data row, or reports the row unusable.
#[verifier::loop_isolation(false)]
fn row_strings(cells: &Vec<Vec<u8>>) -> (r: Option<Vec<String>>)
    ensures
        r matches Some(v) ==> cells_strings(cells.deep_view(), Seq::empty()) == Some(
            v.deep_view(),
        ),
        r is None ==> cells_strings(cells.deep_view(), Seq::empty()) is None,
{
    let ghost model = cells.deep_view();
    let n = cells.len();
    let mut out: Vec<String> = Vec::new();
    let mut i: usize = 0;
    proof {
        assert(model.skip(0) =~= model);
        assert(out.deep_view() =~= Seq::<Seq<char>>::empty());
    }
    while i < n
        invariant
            0 <= i <= n,
            cells_strings(model.skip(i as int), out.deep_view()) == cells_strings(
                model,
                Seq::empty(),
            ),
        decreases n - i,
    {
        proof {
            assert(model.skip(i as int)[0] == model[i as int]);
            assert(model.skip(i as int).drop_first() =~= model.skip(i as int + 1));
            assert(model[i as int] =~= cells@[i as int]@);
        }
        match utf8_string(&cells[i]) {
            Some(s) => {
                let ghost pre = out.deep_view();
                out.push(s);
                proof {
                    assert(out.deep_view() =~= pre.push(decode_utf8(model[i as int])));
                }
            },
            None => {
                return None;
            },
        }
        i = i + 1;
    }
    proof {
        assert(model.skip(n as int) =~= Seq::empty());
    }
    Some(out)
}

/// Decodes the header row, empty names standing in for undecodable cells.
#[verifier::loop_isolation(false)]
fn header_row(cells: &Vec<Vec<u8>>) -> (r: Vec<String>)
    ensures
        r.deep_view() == header_strings(cells.deep_view(), Seq::empty()),
{
    let ghost model = cells.deep_view();
    let n = cells.len();
    let mut out: Vec<String> = Vec::new();
    let mut i: usize = 0;
    proof {
        assert(model.skip(0) =~= model);
        assert(out.deep_view() =~= Seq::<Seq<char>>::empty());
    }
    while i < n
        invariant
            0 <= i <= n,
            header_strings(model.skip(i as int), out.deep_view()) == header_strings(
                model,
                Seq::empty(),
            ),
        decreases n - i,
    {
        proof {
            assert(model.skip(i as int)[0] == model[i as int]);
            assert(model.skip(i as int).drop_first() =~= model.skip(i as int + 1));
            assert(model[i as int] =~= cells@[i as int]@);
        }
        let ghost pre = out.deep_view();
        match utf8_string(&cells[i]) {
            Some(s) => {
                out.push(s);
                proof {
                    assert(out.deep_view() =~= pre.push(decode_utf8(model[i as int])));
                }
            },
            None => {
                out.push(String::new());
                proof {
                    assert(out.deep_view() =~= pre.push(Seq::<char>::empty()));
                }
            },
        }
        i = i + 1;
    }
    proof {
        assert(model.skip(n as int) =~= Seq::empty());
    }
    out
}

/// Builds one dictionary row by zipping column names with cells.
#[verifier::loop_isolation(false)]
fn dict_row(hs: &Vec<String>, strs: Vec<String>) -> (r: Val)
    ensures
        val_model(r) == ValModel::Dict(row_dict(hs.deep_view(), strs.deep_view(), Seq::empty())),
{
    let ghost hm = hs.deep_view();
    let ghost sm = strs.deep_view();
    let n = if hs.len() < strs.len() {
        hs.len()
    } else {
        strs.len()
    };
    let mut pairs: Vec<(String, Val)> = Vec::new();
    let mut i: usize = 0;
    proof {
        assert(hm.skip(0) =~= hm);
        assert(sm.skip(0) =~= sm);
        assert(pairs@ =~= Seq::<(String, Val)>::empty());
    }
    while i < n
        invariant
            0 <= i <= n,
            n == if hs@.len() < strs@.len() {
                hs@.len()
            } else {
                strs@.len()
            },
            row_dict(hm.skip(i as int), sm.skip(i as int), pairs_model(pairs@)) == row_dict(
                hm,
                sm,
                Seq::empty(),
            ),
        decreases n - i,
    {
        proof {
            assert(hm.skip(i as int)[0] == hm[i as int]);
            assert(sm.skip(i as int)[0] == sm[i as int]);
            assert(hm.skip(i as int).drop_first() =~= hm.skip(i as int + 1));
            assert(sm.skip(i as int).drop_first() =~= sm.skip(i as int + 1));
            assert(hm[i as int] == hs@[i as int]@);
            assert(sm[i as int] == strs@[i as int]@);
        }
        let key = hs[i].clone();
        let cell = strs[i].clone();
        crate::value::dict_insert(&mut pairs, key, Val::Str(cell));
        i = i + 1;
    }
    proof {
        if hm.skip(n as int).len() == 0 || sm.skip(n as int).len() == 0 {
            assert(row_dict(hm.skip(n as int), sm.skip(n as int), pairs_model(pairs@))
                == pairs_model(pairs@));
        }
    }
    Val::Dict(pairs)
}

/// Translates the reader's records into the typesetter's value algebra, as
/// `csv_value_of` says.
#[verifier::loop_isolation(false)]
pub fn csv_to_val(rows: &Vec<Option<Vec<Vec<u8>>>>, use_headers: bool) -> (r: Val)
    ensures
        val_model(r) == csv_value_of(rows.deep_view(), use_headers),
{
    let ghost model = rows.deep_view();
    let n = rows.len();
    let mut out: Vec<Val> = Vec::new();
    if use_headers {
        if n == 0 {
            proof {
                assert(vals_model(out@) =~= Seq::<ValModel>::empty());
            }
            return Val::Array(out);
        }
        let hs: Vec<String> = match &rows[0] {
            Some(cells) => header_row(cells),
            None => {
                let mut one: Vec<String> = Vec::new();
                one.push(String::new());
                proof {
                    assert(one.deep_view() =~= seq![Seq::<char>::empty()]);
                }
                one
            },
        };
        assert(hs.deep_view() == headers_of(model[0]));
        let ghost hm = hs.deep_view();
        let ghost body = model.skip(1);
        let mut i: usize = 1;
        proof {
            assert(body.skip(0) =~= body);
            assert(vals_model(out@) =~= Seq::<ValModel>::empty());
        }
        while i < n
            invariant
                1 <= i <= n,
                hm == hs.deep_view(),
                csv_body_dicts(body.skip(i - 1), hm, vals_model(out@)) == csv_body_dicts(
                    body,
                    hm,
                    Seq::empty(),
                ),
            decreases n - i,
        {
            proof {
                assert(body.skip(i - 1)[0] == model[i as int]);
                assert(body.skip(i - 1).drop_first() =~= body.skip(i as int));
            }
            match &rows[i] {
                Some(cells) => {
                    match row_strings(cells) {
                        Some(strs) => {
                            let v = dict_row(&hs, strs);
                            let ghost pre = out@;
                            proof {
                                crate::value::lemma_vals_model_index(pre.push(v));
                                crate::value::lemma_vals_model_index(pre);
                                assert(vals_model(pre.push(v)) =~= vals_model(pre).push(
                                    val_model(v),
                                )) by {
                                    assert forall|j: int| 0 <= j < pre.len() implies vals_model(
                                        pre.push(v),
                                    )[j] == vals_model(pre)[j] by {
                                        assert(pre.push(v)[j] == pre[j]);
                                    }
                                    assert(pre.push(v)[pre.len() as int] == v);
                                }
                            }
                            out.push(v);
                        },
                        None => {
                        },
                    }
                },
                None => {
                },
            }
            i = i + 1;
        }
        proof {
            assert(body.skip(n - 1) =~= Seq::empty());
        }
        Val::Array(out)
    } else {
        let mut i: usize = 0;
        proof {
            assert(model.skip(0) =~= model);
            assert(vals_model(out@) =~= Seq::<ValModel>::empty());
        }
        while i < n
            invariant
                0 <= i <= n,
                csv_body_arrays(model.skip(i as int), vals_model(out@)) == csv_body_arrays(
                    model,
                    Seq::empty(),
                ),
            decreases n - i,
        {
            proof {
                assert(model.skip(i as int)[0] == model[i as int]);
                assert(model.skip(i as int).drop_first() =~= model.skip(i as int + 1));
            }
            match &rows[i] {
                Some(cells) => {
                    match row_strings(cells) {
                        Some(strs) => {
                            let ghost sm = strs.deep_view();
                            let m = strs.len();
                            let mut items: Vec<Val> = Vec::new();
                            let mut jx: usize = 0;
                            while jx < m
                                invariant
                                    0 <= jx <= m,
                                    m == strs@.len(),
                                    items@.len() == jx,
                                    forall|j: int|
                                        0 <= j < jx ==> vals_model(items@)[j] == ValModel::Str(
                                            #[trigger] sm[j],
                                        ),
                                decreases m - jx,
                            {
                                let ghost pre = items@;
                                items.push(Val::Str(strs[jx].clone()));
                                proof {
                                    crate::value::lemma_vals_model_index(items@);
                                    crate::value::lemma_vals_model_index(pre);
                                    assert(sm[jx as int] == strs@[jx as int]@);
                                    assert forall|j: int| 0 <= j < jx + 1 implies vals_model(
                                        items@,
                                    )[j] == ValModel::Str(#[trigger] sm[j]) by {
                                        if j < jx {
                                            assert(items@[j] == pre[j]);
                                            assert(vals_model(pre)[j] == ValModel::Str(sm[j]));
                                        } else {
                                            assert(items@[j] == Val::Str(strs@[jx as int]));
                                        }
                                    }
                                }
                                jx = jx + 1;
                            }
                            proof {
                                crate::value::lemma_vals_model_index(items@);
                                assert(vals_model(items@) =~= sm.map_values(
                                    |s: Seq<char>| ValModel::Str(s),
                                ));
                            }
                            let v = Val::Array(items);
                            let ghost pre = out@;
                            proof {
                                crate::value::lemma_vals_model_index(pre.push(v));
                                crate::value::lemma_vals_model_index(pre);
                                assert(vals_model(pre.push(v)) =~= vals_model(pre).push(
                                    val_model(v),
                                )) by {
                                    assert forall|j: int| 0 <= j < pre.len() implies vals_model(
                                        pre.push(v),
                                    )[j] == vals_model(pre)[j] by {
                                        assert(pre.push(v)[j] == pre[j]);
                                    }
                                    assert(pre.push(v)[pre.len() as int] == v);
                                }
                            }
                            out.push(v);
                        },
                        None => {
                        },
                    }
                },
                None => {
                },
            }
            i = i + 1;
        }
        proof {
            assert(model.skip(n as int) =~= Seq::empty());
        }
        Val::Array(out)
    }
}

/// Reads CSV text with the given delimiter and header policy into the
/// typesetter's value algebra.
pub fn csv_value(text: &str, delimiter: u8, use_headers: bool) -> (r: Val)
    ensures
        val_model(r) == csv_value_of(csv_rows_of(text@, delimiter), use_headers),
{
    let rows = csv_split(text, delimiter);
    csv_to_val(&rows, use_headers)
}

} // verus!
