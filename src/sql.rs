//! The text of the statements that persist entries.
use vstd::prelude::*;
use vstd::string::*;

verus! {

pub open spec fn digit_char(d: nat) -> char {
    if d == 0 {
        '0'
    } else if d == 1 {
        '1'
    } else if d == 2 {
        '2'
    } else if d == 3 {
        '3'
    } else if d == 4 {
        '4'
    } else if d == 5 {
        '5'
    } else if d == 6 {
        '6'
    } else if d == 7 {
        '7'
    } else if d == 8 {
        '8'
    } else {
        '9'
    }
}

/// The decimal digits of `n`.
pub open spec fn decimal(n: nat) -> Seq<char>
    decreases n,
{
    if n < 10 {
        seq![digit_char(n)]
    } else {
        decimal(n / 10).push(digit_char(n % 10))
    }
}

/// `parts` with `sep` between each two of them.
pub open spec fn join(parts: Seq<Seq<char>>, sep: Seq<char>) -> Seq<char>
    decreases parts.len(),
{
    if parts.len() == 0 {
        Seq::empty()
    } else if parts.len() == 1 {
        parts[0]
    } else {
        join(parts.drop_last(), sep) + sep + parts.last()
    }
}

/// The numbered parameter `?i`.
pub open spec fn placeholder(i: nat) -> Seq<char> {
    "?"@ + decimal(i)
}

/// The parameters of row `row` of a statement over `ncols` columns.
pub open spec fn values_group(row: nat, ncols: nat) -> Seq<char> {
    "("@ + join(Seq::new(ncols, |j: int| placeholder((row * ncols + j + 1) as nat)), ", "@) + ")"@
}

/// A statement that inserts `nrows` rows into `table`, each row's values
/// bound to consecutive numbered parameters.
pub open spec fn insert_query(table: Seq<char>, columns: Seq<Seq<char>>, nrows: nat) -> Seq<char> {
    "INSERT INTO "@ + table + "("@ + join(columns, ", "@) + ") "@ + "VALUES "@ + join(
        Seq::new(nrows, |r: int| values_group(r as nat, columns.len())),
        ", "@,
    )
}

fn digit_str(d: usize) -> (r: &'static str)
    requires
        d < 10,
    ensures
        r@ == seq![digit_char(d as nat)],
{
    proof {
        reveal_strlit("0");
        reveal_strlit("1");
        reveal_strlit("2");
        reveal_strlit("3");
        reveal_strlit("4");
        reveal_strlit("5");
        reveal_strlit("6");
        reveal_strlit("7");
        reveal_strlit("8");
        reveal_strlit("9");
    }
    let r = if d == 0 {
        "0"
    } else if d == 1 {
        "1"
    } else if d == 2 {
        "2"
    } else if d == 3 {
        "3"
    } else if d == 4 {
        "4"
    } else if d == 5 {
        "5"
    } else if d == 6 {
        "6"
    } else if d == 7 {
        "7"
    } else if d == 8 {
        "8"
    } else {
        "9"
    };
    assert(r@ =~= seq![digit_char(d as nat)]);
    r
}

/// Appends the decimal digits of `n`.
pub fn push_decimal(s: &mut String, n: usize)
    ensures
        final(s)@ == old(s)@ + decimal(n as nat),
    decreases n,
{
    if n >= 10 {
        push_decimal(s, n / 10);
    }
    s.append(digit_str(n % 10));
    assert(final(s)@ =~= old(s)@ + decimal(n as nat)) by {
        if n >= 10 {
            assert(decimal(n as nat) == decimal((n / 10) as nat).push(digit_char((n % 10) as nat)));
        }
    }
}

proof fn lemma_join_push(parts: Seq<Seq<char>>, sep: Seq<char>, k: int)
    requires
        1 <= k < parts.len(),
    ensures
        join(parts.subrange(0, k + 1), sep) == join(parts.subrange(0, k), sep) + sep + parts[k],
{
    assert(parts.subrange(0, k + 1).drop_last() =~= parts.subrange(0, k));
}

/// Builds the statement that inserts `rows.len()` rows into `table`, one
/// numbered parameter for each column of each row.
pub fn build_bulk_insert_query<R>(table: &str, columns: &[&str], rows: &[R]) -> (r: String)
    requires
        columns@.len() > 0,
        rows@.len() * columns@.len() + 1 <= usize::MAX,
    ensures
        r@ == insert_query(
            table@,
            columns@.map_values(|c: &str| c@),
            rows@.len() as nat,
        ),
{
    let ncols = columns.len();
    let nrows = rows.len();
    let ghost cols = columns@.map_values(|c: &str| c@);
    let mut query = String::from_str("INSERT INTO ");
    query.append(table);
    query.append("(");
    let ghost head = query@;
    let mut c: usize = 0;
    while c < ncols
        invariant
            ncols == columns@.len(),
            cols == columns@.map_values(|c: &str| c@),
            c <= ncols,
            query@ == head + join(cols.subrange(0, c as int), ", "@),
        decreases ncols - c,
    {
        if c > 0 {
            query.append(", ");
            proof {
                lemma_join_push(cols, ", "@, c as int);
            }
        } else {
            assert(cols.subrange(0, 1) =~= seq![cols[0]]);
        }
        query.append(columns[c]);
        c = c + 1;
    }
    assert(cols.subrange(0, ncols as int) =~= cols);
    query.append(") ");
    query.append("VALUES ");
    let ghost groups = Seq::new(nrows as nat, |r: int| values_group(r as nat, ncols as nat));
    let ghost head2 = query@;
    let mut row: usize = 0;
    while row < nrows
        invariant
            ncols == columns@.len(),
            nrows == rows@.len(),
            nrows * ncols + 1 <= usize::MAX,
            ncols > 0,
            row <= nrows,
            groups == Seq::new(nrows as nat, |r: int| values_group(r as nat, ncols as nat)),
            query@ == head2 + join(groups.subrange(0, row as int), ", "@),
        decreases nrows - row,
    {
        let ghost before = query@;
        if row > 0 {
            query.append(", ");
        }
        query.append("(");
        let ghost gstart = query@;
        assert(row * ncols + ncols <= nrows * ncols) by (nonlinear_arith)
            requires
                row < nrows,
        ;
        let ghost items = Seq::new(ncols as nat, |j: int| placeholder((row * ncols + j + 1) as nat));
        let mut j: usize = 0;
        while j < ncols
            invariant
                ncols > 0,
                j <= ncols,
                row * ncols + ncols + 1 <= usize::MAX,
                items == Seq::new(ncols as nat, |j: int| placeholder((row * ncols + j + 1) as nat)),
                query@ == gstart + join(items.subrange(0, j as int), ", "@),
            decreases ncols - j,
        {
            if j > 0 {
                query.append(", ");
                proof {
                    lemma_join_push(items, ", "@, j as int);
                }
            } else {
                assert(items.subrange(0, 1) =~= seq![items[0]]);
            }
            query.append("?");
            push_decimal(&mut query, row * ncols + j + 1);
            proof {
                reveal_strlit("?");
            }
            assert(items[j as int] == "?"@ + decimal((row * ncols + j + 1) as nat));
            j = j + 1;
        }
        query.append(")");
        assert(items.subrange(0, ncols as int) =~= items);
        assert(groups[row as int] == values_group(row as nat, ncols as nat));
        assert(values_group(row as nat, ncols as nat) =~= "("@ + join(items, ", "@) + ")"@);
        if row > 0 {
            proof {
                lemma_join_push(groups, ", "@, row as int);
            }
        } else {
            assert(groups.subrange(0, 1) =~= seq![groups[0]]);
        }
        row = row + 1;
    }
    assert(groups.subrange(0, nrows as int) =~= groups);
    query
}

} // verus!
