//! Splitting and joining of character sequences, digit parsing, and decimal
//! rendering: the plain text operations that the row model and the
//! match-expression grammar are built on.
use vstd::prelude::*;

verus! {

/// The cells obtained by splitting `s` at each left-to-right occurrence of
/// the separator `sep`.  The result always has at least one element; an
/// input without any occurrence of `sep` is the single cell of itself, and
/// adjacent occurrences produce empty cells.  An empty separator does not
/// split at all.
pub open spec fn split_spec(s: Seq<char>, sep: Seq<char>) -> Seq<Seq<char>>
    decreases s.len(),
{
    if sep.len() == 0 {
        seq![s]
    } else if s.len() >= sep.len() && s.subrange(0, sep.len() as int) == sep {
        seq![Seq::<char>::empty()].add(
            split_spec(s.subrange(sep.len() as int, s.len() as int), sep),
        )
    } else if s.len() == 0 {
        seq![s]
    } else {
        let rest = split_spec(s.subrange(1, s.len() as int), sep);
        seq![seq![s[0]].add(rest[0])].add(rest.skip(1))
    }
}

/// The cells joined back into one sequence with `sep` between neighbours.
pub open spec fn join_spec(cells: Seq<Seq<char>>, sep: Seq<char>) -> Seq<char>
    decreases cells.len(),
{
    if cells.len() == 0 {
        Seq::empty()
    } else if cells.len() == 1 {
        cells[0]
    } else {
        cells[0] + sep + join_spec(cells.skip(1), sep)
    }
}

/// `sep` occurs in `s` starting at position `i`.
spec fn sep_at(s: Seq<char>, sep: Seq<char>, i: int) -> bool {
    &&& 0 <= i
    &&& i + sep.len() <= s.len()
    &&& s.subrange(i, i + sep.len()) == sep
}

pub proof fn lemma_split_spec_len(s: Seq<char>, sep: Seq<char>)
    ensures
        split_spec(s, sep).len() >= 1,
    decreases s.len(),
{
    if sep.len() == 0 {
    } else if s.len() >= sep.len() && s.subrange(0, sep.len() as int) == sep {
    } else if s.len() == 0 {
    } else {
        lemma_split_spec_len(s.subrange(1, s.len() as int), sep);
    }
}

/// Splitting and rejoining with the same separator gives the input back.
pub proof fn lemma_split_join_round_trip(s: Seq<char>, sep: Seq<char>)
    ensures
        join_spec(split_spec(s, sep), sep) == s,
    decreases s.len(),
{
    if sep.len() == 0 {
        assert(join_spec(seq![s], sep) == s);
    } else if s.len() >= sep.len() && s.subrange(0, sep.len() as int) == sep {
        let tail = s.subrange(sep.len() as int, s.len() as int);
        lemma_split_join_round_trip(tail, sep);
        lemma_split_spec_len(tail, sep);
        let cells = seq![Seq::<char>::empty()].add(split_spec(tail, sep));
        assert(cells.skip(1) =~= split_spec(tail, sep));
        assert(join_spec(cells, sep) == Seq::<char>::empty() + sep + join_spec(
            split_spec(tail, sep),
            sep,
        ));
        assert(Seq::<char>::empty() + sep + s.subrange(sep.len() as int, s.len() as int) =~= s);
    } else if s.len() == 0 {
    } else {
        let tail = s.subrange(1, s.len() as int);
        lemma_split_join_round_trip(tail, sep);
        lemma_split_spec_len(tail, sep);
        let rest = split_spec(tail, sep);
        let cells = seq![seq![s[0]].add(rest[0])].add(rest.skip(1));
        if rest.len() == 1 {
            assert(cells.len() == 1);
            assert(join_spec(cells, sep) == seq![s[0]].add(rest[0]));
            assert(join_spec(rest, sep) == rest[0]);
            assert(seq![s[0]].add(rest[0]) =~= s);
        } else {
            assert(cells.len() >= 2);
            assert(cells.skip(1) =~= rest.skip(1));
            assert(join_spec(cells, sep) == seq![s[0]].add(rest[0]) + sep + join_spec(
                rest.skip(1),
                sep,
            ));
            assert(join_spec(rest, sep) == rest[0] + sep + join_spec(rest.skip(1), sep));
            assert(seq![s[0]].add(rest[0]) + sep + join_spec(rest.skip(1), sep) =~= seq![
                s[0],
            ].add(rest[0] + sep + join_spec(rest.skip(1), sep)));
            assert(seq![s[0]].add(join_spec(rest, sep)) =~= s);
        }
    }
}

/// The split of a suffix, with the pending partial cell `p` glued onto its
/// first cell: the shape of the intermediate state of a left-to-right scan.
spec fn prepend_first(p: Seq<char>, ss: Seq<Seq<char>>) -> Seq<Seq<char>>
    recommends
        ss.len() >= 1,
{
    seq![p.add(ss[0])].add(ss.skip(1))
}

proof fn lemma_prepend_first_empty(ss: Seq<Seq<char>>)
    requires
        ss.len() >= 1,
    ensures
        prepend_first(Seq::empty(), ss) == ss,
{
    assert(Seq::<char>::empty().add(ss[0]) =~= ss[0]);
    assert(prepend_first(Seq::empty(), ss) =~= ss);
}

/// A separator occurrence at `i`: the pending cell closes there, and the scan
/// resumes after the separator.
proof fn lemma_split_step_sep(s: Seq<char>, sep: Seq<char>, start: int, i: int)
    requires
        sep.len() >= 1,
        0 <= start <= i,
        sep_at(s, sep, i),
    ensures
        prepend_first(s.subrange(start, i), split_spec(s.subrange(i, s.len() as int), sep))
            == seq![s.subrange(start, i)].add(
            split_spec(s.subrange(i + sep.len(), s.len() as int), sep),
        ),
{
    let suffix = s.subrange(i, s.len() as int);
    assert(suffix.len() >= sep.len());
    assert(suffix.subrange(0, sep.len() as int) =~= s.subrange(i, i + sep.len()));
    let after = s.subrange(i + sep.len(), s.len() as int);
    assert(suffix.subrange(sep.len() as int, suffix.len() as int) =~= after);
    assert(split_spec(suffix, sep) == seq![Seq::<char>::empty()].add(split_spec(after, sep)));
    lemma_split_spec_len(after, sep);
    let p = s.subrange(start, i);
    assert(p.add(Seq::<char>::empty()) =~= p);
    assert(seq![Seq::<char>::empty()].add(split_spec(after, sep)).skip(1) =~= split_spec(
        after,
        sep,
    ));
    assert(prepend_first(p, split_spec(suffix, sep)) =~= seq![p].add(split_spec(after, sep)));
}

/// No separator occurrence at `i`: the character at `i` joins the pending
/// cell and the scan moves one position on.
proof fn lemma_split_step_char(s: Seq<char>, sep: Seq<char>, start: int, i: int)
    requires
        sep.len() >= 1,
        0 <= start <= i < s.len(),
        !sep_at(s, sep, i),
    ensures
        prepend_first(s.subrange(start, i), split_spec(s.subrange(i, s.len() as int), sep))
            == prepend_first(
            s.subrange(start, i + 1),
            split_spec(s.subrange(i + 1, s.len() as int), sep),
        ),
{
    let suffix = s.subrange(i, s.len() as int);
    let after = s.subrange(i + 1, s.len() as int);
    assert(suffix.len() >= 1);
    if suffix.len() >= sep.len() && suffix.subrange(0, sep.len() as int) == sep {
        assert(suffix.subrange(0, sep.len() as int) =~= s.subrange(i, i + sep.len()));
        assert(sep_at(s, sep, i));
        assert(false);
    }
    assert(suffix.subrange(1, suffix.len() as int) =~= after);
    let rest = split_spec(after, sep);
    lemma_split_spec_len(after, sep);
    assert(split_spec(suffix, sep) == seq![seq![suffix[0]].add(rest[0])].add(rest.skip(1)));
    assert(suffix[0] == s[i]);
    let p = s.subrange(start, i);
    let p1 = s.subrange(start, i + 1);
    assert(p1 =~= p.add(seq![s[i]]));
    assert(p.add(seq![s[i]].add(rest[0])) =~= p1.add(rest[0]));
    assert(seq![seq![suffix[0]].add(rest[0])].add(rest.skip(1)).skip(1) =~= rest.skip(1));
    assert(prepend_first(p, split_spec(suffix, sep)) =~= prepend_first(p1, rest));
}

/// End of input: the pending cell is the last one.
proof fn lemma_split_step_end(s: Seq<char>, sep: Seq<char>, start: int)
    requires
        sep.len() >= 1,
        0 <= start <= s.len(),
    ensures
        prepend_first(
            s.subrange(start, s.len() as int),
            split_spec(s.subrange(s.len() as int, s.len() as int), sep),
        ) == seq![s.subrange(start, s.len() as int)],
{
    let e = s.subrange(s.len() as int, s.len() as int);
    assert(e.len() == 0);
    assert(split_spec(e, sep) == seq![e]);
    let p = s.subrange(start, s.len() as int);
    assert(p.add(e) =~= p);
    assert(prepend_first(p, split_spec(e, sep)) =~= seq![p]);
}

/// Whether `sep` occurs in `s` starting at character position `i`.
fn has_sep_at(s: &str, sep: &str, i: usize) -> (b: bool)
    requires
        i <= s@.len(),
    ensures
        b == sep_at(s@, sep@, i as int),
{
    let slen = s.unicode_len();
    let seplen = sep.unicode_len();
    if seplen > slen - i {
        return false;
    }
    let mut j: usize = 0;
    while j < seplen
        invariant
            slen == s@.len(),
            seplen == sep@.len(),
            i + seplen <= slen,
            0 <= j <= seplen,
            forall|k: int| 0 <= k < j ==> s@[i + k] == sep@[k],
        decreases seplen - j,
    {
        if s.get_char(i + j) != sep.get_char(j) {
            return false;
        }
        j = j + 1;
    }
    proof {
        assert(s@.subrange(i as int, i + sep@.len()) =~= sep@);
    }
    true
}

/// Splits `s` at each left-to-right occurrence of the non-empty separator
/// `sep`, exactly as `split_spec` describes.
pub fn split_str(s: &str, sep: &str) -> (r: Vec<String>)
    requires
        sep@.len() >= 1,
    ensures
        r.deep_view() == split_spec(s@, sep@),
{
    let slen = s.unicode_len();
    let seplen = sep.unicode_len();
    let mut cells: Vec<String> = Vec::new();
    let mut start: usize = 0;
    let mut i: usize = 0;
    proof {
        lemma_split_spec_len(s@, sep@);
        lemma_prepend_first_empty(split_spec(s@, sep@));
        assert(s@.subrange(0, 0).len() == 0);
        assert(s@.subrange(0, 0) =~= Seq::<char>::empty());
        assert(s@.subrange(0, slen as int) =~= s@);
    }
    while i < slen
        invariant
            slen == s@.len(),
            seplen == sep@.len(),
            sep@.len() >= 1,
            start <= i <= slen,
            split_spec(s@, sep@) == cells.deep_view().add(
                prepend_first(
                    s@.subrange(start as int, i as int),
                    split_spec(s@.subrange(i as int, slen as int), sep@),
                ),
            ),
        decreases slen - i,
    {
        if has_sep_at(s, sep, i) {
            let cell = s.substring_char(start, i).to_owned();
            proof {
                lemma_split_step_sep(s@, sep@, start as int, i as int);
            }
            let ghost old_cells = cells;
            cells.push(cell);
            proof {
                assert(cells.deep_view() =~= old_cells.deep_view().push(
                    s@.subrange(start as int, i as int),
                ));
                assert(old_cells.deep_view().add(
                    seq![s@.subrange(start as int, i as int)].add(
                        split_spec(s@.subrange(i + sep@.len(), slen as int), sep@),
                    ),
                ) =~= cells.deep_view().add(
                    split_spec(s@.subrange(i + sep@.len(), slen as int), sep@),
                ));
                lemma_split_spec_len(s@.subrange(i + sep@.len(), slen as int), sep@);
                lemma_prepend_first_empty(split_spec(s@.subrange(i + sep@.len(), slen as int), sep@));
            }
            i = i + seplen;
            start = i;
            proof {
                assert(s@.subrange(start as int, i as int) =~= Seq::<char>::empty());
            }
        } else {
            proof {
                lemma_split_step_char(s@, sep@, start as int, i as int);
            }
            i = i + 1;
        }
    }
    let last = s.substring_char(start, slen).to_owned();
    proof {
        lemma_split_step_end(s@, sep@, start as int);
    }
    let ghost old_cells = cells;
    cells.push(last);
    proof {
        assert(cells.deep_view() =~= old_cells.deep_view().push(
            s@.subrange(start as int, slen as int),
        ));
        assert(cells.deep_view() =~= old_cells.deep_view().add(
            seq![s@.subrange(start as int, slen as int)],
        ));
    }
    cells
}

/// Joins the cells back into one string with `sep` between neighbours,
/// exactly as `join_spec` describes.
pub fn join_cells(cells: &Vec<String>, sep: &str) -> (r: String)
    ensures
        r@ == join_spec(cells.deep_view(), sep@),
{
    let mut out = String::new();
    let n = cells.len();
    let mut i: usize = 0;
    while i < n
        invariant
            n == cells.len(),
            0 <= i <= n,
            out@ == join_spec(cells.deep_view().take(i as int), sep@),
        decreases n - i,
    {
        if i > 0 {
            out.append(sep);
        }
        out.append(cells[i].as_str());
        proof {
            lemma_join_snoc(cells.deep_view().take(i as int), cells.deep_view()[i as int], sep@);
            assert(cells.deep_view().take(i + 1) =~= cells.deep_view().take(i as int).push(
                cells.deep_view()[i as int],
            ));
        }
        i = i + 1;
    }
    proof {
        assert(cells.deep_view().take(n as int) =~= cells.deep_view());
    }
    out
}

pub open spec fn is_digit(c: char) -> bool {
    '0' <= c && c <= '9'
}

pub open spec fn all_digits(s: Seq<char>) -> bool {
    forall|i: int| 0 <= i < s.len() ==> is_digit(#[trigger] s[i])
}

pub open spec fn digit_val(c: char) -> nat {
    (c as int - 48) as nat
}

/// The number that a non-empty digit string denotes in decimal.
pub open spec fn digits_val(s: Seq<char>) -> nat
    decreases s.len(),
{
    if s.len() == 0 {
        0
    } else {
        digits_val(s.drop_last()) * 10 + digit_val(s.last())
    }
}

proof fn lemma_digits_val_snoc_ge(s: Seq<char>)
    requires
        s.len() >= 1,
    ensures
        digits_val(s) >= digits_val(s.drop_last()),
{
    assert(digits_val(s.drop_last()) * 10 >= digits_val(s.drop_last()));
}

proof fn lemma_digits_val_prefix_le(s: Seq<char>, i: int, j: int)
    requires
        0 <= i <= j <= s.len(),
    ensures
        digits_val(s.take(i)) <= digits_val(s.take(j)),
    decreases j - i,
{
    if i < j {
        lemma_digits_val_prefix_le(s, i, j - 1);
        lemma_digits_val_snoc_ge(s.take(j));
        assert(s.take(j).drop_last() =~= s.take(j - 1));
    }
}

/// Parses a string of decimal digits as a column index.  The result exists
/// exactly when the string is non-empty, consists of digits only, and its
/// value fits in `usize`; it is then that value.
pub fn parse_index(s: &str) -> (r: Option<usize>)
    ensures
        r is Some <==> (s@.len() >= 1 && all_digits(s@) && digits_val(s@) <= usize::MAX),
        r matches Some(v) ==> v == digits_val(s@),
{
    let n = s.unicode_len();
    if n == 0 {
        return None;
    }
    let mut acc: usize = 0;
    let mut i: usize = 0;
    while i < n
        invariant
            n == s@.len(),
            0 <= i <= n,
            all_digits(s@.take(i as int)),
            acc == digits_val(s@.take(i as int)),
        decreases n - i,
    {
        let c = s.get_char(i);
        if c < '0' || c > '9' {
            assert(!is_digit(s@[i as int]));
            return None;
        }
        let d: usize = (c as u32 - 48) as usize;
        assert(d == digit_val(s@[i as int]));
        let step = match acc.checked_mul(10) {
            Some(m) => m.checked_add(d),
            None => None,
        };
        proof {
            assert(s@.take(i + 1).drop_last() =~= s@.take(i as int));
            assert(s@.take(i + 1).last() == s@[i as int]);
        }
        match step {
            Some(v) => {
                acc = v;
            },
            None => {
                proof {
                    assert(digits_val(s@.take(i + 1)) > usize::MAX);
                    lemma_digits_val_prefix_le(s@, i + 1, s@.len() as int);
                    assert(s@.take(s@.len() as int) =~= s@);
                }
                return None;
            },
        }
        i = i + 1;
    }
    proof {
        assert(s@.take(n as int) =~= s@);
    }
    Some(acc)
}

/// The digit character for a value below ten.
pub open spec fn digit_char(d: nat) -> char {
    if d == 0 {
        '0'
    } else if d == 1 {
        '1'
    } else if d == 2 {
        '2'
    } else if d == 3 {
        '3'
    } else if d == 4 {
        '4'
    } else if d == 5 {
        '5'
    } else if d == 6 {
        '6'
    } else if d == 7 {
        '7'
    } else if d == 8 {
        '8'
    } else {
        '9'
    }
}

/// The decimal rendering of `n`, most significant digit first, without
/// leading zeros (except for `n == 0` itself).
pub open spec fn dec_spec(n: nat) -> Seq<char>
    decreases n,
{
    if n < 10 {
        seq![digit_char(n)]
    } else {
        dec_spec(n / 10).push(digit_char(n % 10))
    }
}

fn digit_str(d: usize) -> (r: &'static str)
    requires
        d < 10,
    ensures
        r@ == seq![digit_char(d as nat)],
{
    proof {
        reveal_strlit("0");
        reveal_strlit("1");
        reveal_strlit("2");
        reveal_strlit("3");
        reveal_strlit("4");
        reveal_strlit("5");
        reveal_strlit("6");
        reveal_strlit("7");
        reveal_strlit("8");
        reveal_strlit("9");
    }
    if d == 0 {
        "0"
    } else if d == 1 {
        "1"
    } else if d == 2 {
        "2"
    } else if d == 3 {
        "3"
    } else if d == 4 {
        "4"
    } else if d == 5 {
        "5"
    } else if d == 6 {
        "6"
    } else if d == 7 {
        "7"
    } else if d == 8 {
        "8"
    } else {
        "9"
    }
}

/// Renders `n` in decimal, exactly as `dec_spec` describes.
pub fn usize_to_decimal(n: usize) -> (s: String)
    ensures
        s@ == dec_spec(n as nat),
    decreases n,
{
    if n < 10 {
        let d = digit_str(n);
        d.to_owned()
    } else {
        let q = n / 10;
        let r = n % 10;
        assert(q < n);
        let mut s = usize_to_decimal(q);
        s.append(digit_str(r));
        proof {
            assert(dec_spec((n as nat) / 10).push(digit_char((n as nat) % 10)) =~= dec_spec(
                (n as nat) / 10,
            ).add(seq![digit_char((n as nat) % 10)]));
        }
        s
    }
}

/// Joins the cells from position `from` on, with `sep` between neighbours.
pub fn join_tail(cells: &Vec<String>, from: usize, sep: &str) -> (r: String)
    requires
        from <= cells@.len(),
    ensures
        r@ == join_spec(cells.deep_view().skip(from as int), sep@),
{
    let ghost tail = cells.deep_view().skip(from as int);
    let mut out = String::new();
    let n = cells.len();
    let mut i: usize = from;
    while i < n
        invariant
            n == cells.len(),
            from <= i <= n,
            tail == cells.deep_view().skip(from as int),
            out@ == join_spec(tail.take(i - from), sep@),
        decreases n - i,
    {
        if i > from {
            out.append(sep);
        }
        out.append(cells[i].as_str());
        proof {
            lemma_join_snoc(tail.take(i - from), tail[i - from], sep@);
            assert(tail[i - from] == cells.deep_view()[i as int]);
            assert(tail.take(i + 1 - from) =~= tail.take(i - from).push(tail[i - from]));
        }
        i = i + 1;
    }
    proof {
        assert(tail.take(n - from) =~= tail);
    }
    out
}

proof fn lemma_join_snoc(cells: Seq<Seq<char>>, c: Seq<char>, sep: Seq<char>)
    ensures
        join_spec(cells.push(c), sep) == if cells.len() == 0 {
            c
        } else {
            join_spec(cells, sep) + sep + c
        },
    decreases cells.len(),
{
    let all = cells.push(c);
    if cells.len() == 0 {
        assert(all.len() == 1);
        assert(join_spec(all, sep) == all[0]);
    } else if cells.len() == 1 {
        assert(all.len() == 2);
        assert(all.skip(1) =~= seq![c]);
        assert(join_spec(all, sep) == all[0] + sep + join_spec(all.skip(1), sep));
        assert(join_spec(seq![c], sep) == c);
        assert(join_spec(cells, sep) == cells[0]);
        assert(all[0] == cells[0]);
    } else {
        assert(all.skip(1) =~= cells.skip(1).push(c));
        lemma_join_snoc(cells.skip(1), c, sep);
        assert(join_spec(all, sep) == all[0] + sep + join_spec(cells.skip(1).push(c), sep));
        assert(join_spec(cells.skip(1).push(c), sep) == join_spec(cells.skip(1), sep) + sep + c);
        assert(all[0] + sep + (join_spec(cells.skip(1), sep) + sep + c) =~= (cells[0] + sep
            + join_spec(cells.skip(1), sep)) + sep + c);
    }
}

} // verus!
