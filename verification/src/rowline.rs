use vstd::prelude::*;

verus! {

/// The characters that `from_utf8_lossy` decodes a byte sequence to.
pub uninterp spec fn lossy_utf8(bytes: Seq<u8>) -> Seq<char>;

/// Relies on String::from_utf8_lossy: the decoded text depends on the bytes
/// alone (invalid sequences become replacement characters).
#[verifier::external_body]
fn decode_lossy(bytes: &Vec<u8>) -> (r: String)
    ensures
        r@ == lossy_utf8(bytes@),
{
    String::from_utf8_lossy(bytes).into_owned()
}

/// ASCII whitespace, as far as row records are concerned.
pub open spec fn is_ws(b: u8) -> bool {
    b == 32 || (9 <= b && b <= 13)
}

/// A line is blank when every byte of it is whitespace.
pub open spec fn is_blank(line: Seq<u8>) -> bool {
    forall|k: int| 0 <= k < line.len() ==> is_ws(#[trigger] line[k])
}

/// One trailing carriage return is not part of the record.
pub open spec fn strip_cr(line: Seq<u8>) -> Seq<u8> {
    if line.len() > 0 && line.last() == 13 {
        line.drop_last()
    } else {
        line
    }
}

/// The position of the first newline at or after `i`, or the chunk's length.
pub open spec fn find_nl(s: Seq<u8>, i: int) -> int
    decreases s.len() - i,
{
    if i < 0 || i >= s.len() {
        s.len() as int
    } else if s[i] == 10 {
        i
    } else {
        find_nl(s, i + 1)
    }
}

proof fn lemma_find_nl_bounds(s: Seq<u8>, i: int)
    requires
        0 <= i <= s.len(),
    ensures
        i <= find_nl(s, i) <= s.len(),
        forall|k: int| i <= k < find_nl(s, i) ==> s[k] != 10,
        find_nl(s, i) < s.len() ==> s[find_nl(s, i)] == 10,
    decreases s.len() - i,
{
    if i < s.len() && s[i] != 10 {
        lemma_find_nl_bounds(s, i + 1);
    }
}

/// The non-blank newline-delimited records of `s` starting at position `i`,
/// each with a trailing carriage return removed.
pub open spec fn rows_from(s: Seq<u8>, i: int) -> Seq<Seq<u8>>
    decreases s.len() - i,
    via rows_from_decreases
{
    if i < 0 || i >= s.len() {
        Seq::empty()
    } else {
        let n = find_nl(s, i);
        let line = strip_cr(s.subrange(i, n));
        let rest = if n + 1 <= s.len() {
            rows_from(s, n + 1)
        } else {
            Seq::empty()
        };
        if is_blank(line) {
            rest
        } else {
            seq![line] + rest
        }
    }
}

#[via_fn]
proof fn rows_from_decreases(s: Seq<u8>, i: int) {
    if 0 <= i && i < s.len() {
        lemma_find_nl_bounds(s, i);
    }
}

/// What the parser extracts from one raw chunk: the complete non-blank lines.
pub open spec fn parse_rows(s: Seq<u8>) -> Seq<Seq<u8>> {
    rows_from(s, 0)
}

/// The decoded text of each extracted line.
pub open spec fn decoded(lines: Seq<Seq<u8>>) -> Seq<Seq<char>> {
    lines.map_values(|l: Seq<u8>| lossy_utf8(l))
}

proof fn lemma_blank_push(s: Seq<u8>, b: u8)
    ensures
        is_blank(s.push(b)) == (is_blank(s) && is_ws(b)),
{
    if is_blank(s) && is_ws(b) {
        assert forall|k: int| 0 <= k < s.push(b).len() implies is_ws(#[trigger] s.push(b)[k]) by {
            if k < s.len() {
                assert(s.push(b)[k] == s[k]);
            }
        }
    }
    if is_blank(s.push(b)) {
        assert forall|k: int| 0 <= k < s.len() implies is_ws(#[trigger] s[k]) by {
            assert(s.push(b)[k] == s[k]);
            assert(is_ws(s.push(b)[k]));
        }
        assert(is_ws(s.push(b)[s.len() as int]));
    }
}

/// Splits one raw byte chunk into its complete non-blank lines, decoded as
/// text. No state is carried across chunks.
pub fn parse_chunk(chunk: &Vec<u8>) -> (r: Vec<String>)
    ensures
        crate::rows::views_of(r@) == decoded(parse_rows(chunk@)),
{
    let n = chunk.len();
    let mut out: Vec<String> = Vec::new();
    let ghost mut done: Seq<Seq<u8>> = Seq::empty();
    let mut start: usize = 0;
    proof {
        assert(crate::rows::views_of(out@) =~= decoded(done));
        assert(parse_rows(chunk@) =~= done + rows_from(chunk@, start as int));
    }
    while start < n
        invariant
            n == chunk.len(),
            start <= n,
            parse_rows(chunk@) == done + rows_from(chunk@, start as int),
            crate::rows::views_of(out@) == decoded(done),
        decreases n - start,
    {
        // Scan to the end of the current line.
        let mut j: usize = start;
        while j < n && chunk[j] != 10
            invariant
                start <= j <= n,
                n == chunk.len(),
                forall|k: int| start <= k < j ==> chunk@[k] != 10,
            decreases n - j,
        {
            j += 1;
        }
        proof {
            lemma_find_nl_bounds(chunk@, start as int);
            assert(find_nl(chunk@, start as int) == j as int) by {
                if j < n {
                    assert(chunk@[j as int] == 10);
                }
                if find_nl(chunk@, start as int) < j as int {
                    assert(chunk@[find_nl(chunk@, start as int)] == 10);
                }
            }
        }
        // One trailing carriage return is not part of the record.
        let end: usize = if j > start && chunk[j - 1] == 13 {
            j - 1
        } else {
            j
        };
        proof {
            assert(strip_cr(chunk@.subrange(start as int, j as int)) =~= chunk@.subrange(
                start as int,
                end as int,
            ));
        }
        // Decide whether the line is blank, and collect its bytes.
        let mut blank = true;
        let mut line: Vec<u8> = Vec::new();
        let mut k: usize = start;
        while k < end
            invariant
                start <= k <= end <= n,
                n == chunk.len(),
                line@ == chunk@.subrange(start as int, k as int),
                blank == is_blank(chunk@.subrange(start as int, k as int)),
            decreases end - k,
        {
            let b = chunk[k];
            if !(b == 32 || (9 <= b && b <= 13)) {
                blank = false;
            }
            proof {
                lemma_blank_push(chunk@.subrange(start as int, k as int), chunk@[k as int]);
                assert(chunk@.subrange(start as int, k as int + 1) =~= chunk@.subrange(
                    start as int,
                    k as int,
                ).push(chunk@[k as int]));
            }
            line.push(b);
            k += 1;
        }
        let ghost this_line = chunk@.subrange(start as int, end as int);
        let ghost out_before = out@;
        let ghost done_before = done;
        if !blank {
            let text = decode_lossy(&line);
            out.push(text);
            proof {
                done = done_before + seq![this_line];
                assert(out@ == out_before.push(text));
                assert(text@ == lossy_utf8(this_line));
                assert(crate::rows::views_of(out@) =~= decoded(done)) by {
                    let lhs = crate::rows::views_of(out@);
                    let rhs = decoded(done);
                    assert(crate::rows::views_of(out_before).len() == out_before.len());
                    assert(decoded(done_before).len() == done_before.len());
                    assert(out@.len() == out_before.len() + 1);
                    assert(done.len() == done_before.len() + 1);
                    assert(lhs.len() == rhs.len());
                    assert forall|idx: int| 0 <= idx < lhs.len() implies lhs[idx] == rhs[idx] by {
                        assert(lhs[idx] == out@[idx]@);
                        assert(rhs[idx] == lossy_utf8(done[idx]));
                        if idx < out_before.len() {
                            assert(crate::rows::views_of(out_before)[idx] == out_before[idx]@);
                            assert(decoded(done_before)[idx] == lossy_utf8(done_before[idx]));
                        } else {
                            assert(out@[idx] == text);
                            assert(done[idx] == this_line);
                        }
                    }
                }
            }
        }
        proof {
            assert(rows_from(chunk@, start as int) == (if is_blank(this_line) {
                rows_from(chunk@, j as int + 1)
            } else {
                seq![this_line] + rows_from(chunk@, j as int + 1)
            }));
            if !is_blank(this_line) {
                assert(done_before + (seq![this_line] + rows_from(chunk@, j as int + 1)) =~= done
                    + rows_from(chunk@, j as int + 1));
            }
            assert(parse_rows(chunk@) =~= done + rows_from(chunk@, j as int + 1));
            if j == n {
                assert(rows_from(chunk@, n as int) =~= Seq::<Seq<u8>>::empty());
                assert(rows_from(chunk@, n as int + 1) =~= Seq::<Seq<u8>>::empty());
            }
        }
        if j < n {
            start = j + 1;
        } else {
            start = n;
        }
    }
    proof {
        assert(rows_from(chunk@, start as int) =~= Seq::<Seq<u8>>::empty());
        assert(parse_rows(chunk@) =~= done + Seq::<Seq<u8>>::empty());
        assert(done + Seq::<Seq<u8>>::empty() =~= done);
    }
    out
}

} // verus!
