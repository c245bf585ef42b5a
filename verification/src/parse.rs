use vstd::prelude::*;

use crate::point::Point;
use crate::point::ParseError;
use crate::point::point_of_record;
use crate::point::record_ok;
use crate::point::record_err;

verus! {

/// A day-boundary line: non-blank and starting with the digit `0` (code 48).
pub open spec fn is_delimiter_line(l: Seq<u8>) -> bool {
    l.len() > 0 && l[0] == 48
}

/// The number of bytes before the first newline (code 10) of `s`, or the
/// whole length when `s` holds none.
pub open spec fn line_end(s: Seq<u8>) -> int
    decreases s.len(),
{
    if s.len() == 0 || s[0] == 10 {
        0
    } else {
        1 + line_end(s.skip(1))
    }
}

/// A line with one trailing carriage return (code 13) stripped.
pub open spec fn chomp(l: Seq<u8>) -> Seq<u8> {
    if l.len() > 0 && l[l.len() - 1] == 13 {
        l.drop_last()
    } else {
        l
    }
}

/// The lines of a byte sequence: split on newlines, each line stripped of a
/// trailing carriage return, with no extra line after a final newline.
pub open spec fn split_lines(s: Seq<u8>) -> Seq<Seq<u8>>
    decreases s.len(),
{
    if s.len() == 0 {
        Seq::empty()
    } else {
        let e = line_end(s);
        if 0 <= e && e < s.len() {
            seq![chomp(s.take(e))] + split_lines(s.skip(e + 1))
        } else {
            seq![chomp(s)]
        }
    }
}

/// One pass over the lines, carrying the finished groups and the in-progress
/// group: blank lines vanish, a boundary line closes a non-empty group and is
/// absorbed by an empty one, any other line must be a valid record and joins
/// the in-progress group. The first invalid record aborts the pass.
pub open spec fn process_lines(
    lines: Seq<Seq<u8>>,
    done: Seq<Seq<Point>>,
    cur: Seq<Point>,
) -> Result<(Seq<Seq<Point>>, Seq<Point>), ParseError>
    decreases lines.len(),
{
    if lines.len() == 0 {
        Ok((done, cur))
    } else {
        let l = lines[0];
        if l.len() == 0 {
            process_lines(lines.skip(1), done, cur)
        } else if l[0] == 48 {
            if cur.len() == 0 {
                process_lines(lines.skip(1), done, cur)
            } else {
                process_lines(lines.skip(1), done.push(cur), Seq::empty())
            }
        } else if record_ok(l) {
            process_lines(lines.skip(1), done, cur.push(point_of_record(l)))
        } else {
            Err(record_err(l))
        }
    }
}

/// The day-groups a sequence of lines parses to: after the pass, the final
/// in-progress group is appended unconditionally, even when it is empty.
pub open spec fn parse_lines_spec(lines: Seq<Seq<u8>>) -> Result<Seq<Seq<Point>>, ParseError> {
    match process_lines(lines, Seq::empty(), Seq::empty()) {
        Ok((done, cur)) => Ok(done.push(cur)),
        Err(e) => Err(e),
    }
}

/// The day-groups raw file contents parse to.
pub open spec fn parse_spec(s: Seq<u8>) -> Result<Seq<Seq<Point>>, ParseError> {
    parse_lines_spec(split_lines(s))
}

/// The sequences of points held by a sequence of point vectors.
pub open spec fn groups_view(groups: Seq<Vec<Point>>) -> Seq<Seq<Point>> {
    groups.map_values(|g: Vec<Point>| g@)
}

/// `line_end` is the index of the first newline, or the length when there is
/// none: the characterization the scanning loop establishes.
proof fn lemma_line_end_char(s: Seq<u8>, e: int)
    requires
        0 <= e <= s.len(),
        forall|k: int| 0 <= k < e ==> s[k] != 10,
        e < s.len() ==> s[e] == 10,
    ensures
        line_end(s) == e,
    decreases e,
{
    if e == 0 {
    } else {
        lemma_line_end_char(s.skip(1), e - 1);
    }
}

/// The points of the record lines, in order; blank lines contribute nothing.
pub open spec fn points_of_lines(lines: Seq<Seq<u8>>) -> Seq<Point>
    decreases lines.len(),
{
    if lines.len() == 0 {
        Seq::empty()
    } else if lines[0].len() == 0 {
        points_of_lines(lines.skip(1))
    } else {
        seq![point_of_record(lines[0])] + points_of_lines(lines.skip(1))
    }
}

/// Lines that form one day's data: each blank or a valid record. A valid
/// record starts with a letter, so such lines are never day boundaries.
pub open spec fn day_lines_ok(lines: Seq<Seq<u8>>) -> bool {
    forall|k: int| 0 <= k < lines.len() ==> (lines[k].len() == 0 || record_ok(#[trigger] lines[k]))
}

/// Processing a day's lines leaves the finished groups alone and appends the
/// day's records to the in-progress group.
proof fn lemma_process_day(lines: Seq<Seq<u8>>, done: Seq<Seq<Point>>, cur: Seq<Point>)
    requires
        day_lines_ok(lines),
    ensures
        process_lines(lines, done, cur) == Ok::<(Seq<Seq<Point>>, Seq<Point>), ParseError>(
            (done, cur + points_of_lines(lines)),
        ),
    decreases lines.len(),
{
    if lines.len() == 0 {
        assert(cur + points_of_lines(lines) =~= cur);
    } else {
        let l = lines[0];
        if l.len() == 0 {
            lemma_process_day(lines.skip(1), done, cur);
        } else {
            assert(record_ok(l));
            assert(l[0] != 48);
            lemma_process_day(lines.skip(1), done, cur.push(point_of_record(l)));
            assert(cur.push(point_of_record(l)) + points_of_lines(lines.skip(1)) =~= cur
                + points_of_lines(lines));
        }
    }
}

/// Processing concatenated lines is processing the first part, then the
/// second from the state the first left behind.
proof fn lemma_process_append(
    l1: Seq<Seq<u8>>,
    l2: Seq<Seq<u8>>,
    done: Seq<Seq<Point>>,
    cur: Seq<Point>,
)
    ensures
        process_lines(l1 + l2, done, cur) == (match process_lines(l1, done, cur) {
            Ok((d, c)) => process_lines(l2, d, c),
            Err(e) => Err(e),
        }),
    decreases l1.len(),
{
    if l1.len() == 0 {
        assert(l1 + l2 =~= l2);
    } else {
        let l = l1[0];
        assert((l1 + l2)[0] == l);
        assert((l1 + l2).skip(1) =~= l1.skip(1) + l2);
        if l.len() == 0 {
            lemma_process_append(l1.skip(1), l2, done, cur);
        } else if l[0] == 48 {
            if cur.len() == 0 {
                lemma_process_append(l1.skip(1), l2, done, cur);
            } else {
                lemma_process_append(l1.skip(1), l2, done.push(cur), Seq::empty());
            }
        } else if record_ok(l) {
            lemma_process_append(l1.skip(1), l2, done, cur.push(point_of_record(l)));
        }
    }
}

/// A file whose lines are all blank or valid records — so it holds no day
/// boundary — parses to exactly one day-group: every record in file order.
pub proof fn lemma_no_delimiter_single_group(s: Seq<u8>)
    requires
        day_lines_ok(split_lines(s)),
    ensures
        parse_spec(s) is Ok,
        parse_spec(s)->Ok_0.len() == 1,
        parse_spec(s)->Ok_0[0] == points_of_lines(split_lines(s)),
{
    lemma_process_day(split_lines(s), Seq::empty(), Seq::empty());
    assert(Seq::<Point>::empty() + points_of_lines(split_lines(s)) =~= points_of_lines(
        split_lines(s),
    ));
}

/// A successful parse always yields at least one day-group: the final
/// in-progress group is appended even when the file holds nothing at all.
pub proof fn lemma_parse_at_least_one_group(s: Seq<u8>)
    ensures
        parse_spec(s) is Ok ==> parse_spec(s)->Ok_0.len() >= 1,
{
}

/// One day's lines after another, each day closed by a boundary line.
pub open spec fn join_days(days: Seq<Seq<Seq<u8>>>, delim: Seq<u8>) -> Seq<Seq<u8>>
    decreases days.len(),
{
    if days.len() == 0 {
        Seq::empty()
    } else {
        days[0] + seq![delim] + join_days(days.skip(1), delim)
    }
}

/// Processing the delimited day blocks moves each day's records into the
/// finished groups, in order, and leaves an empty in-progress group.
proof fn lemma_process_days(
    days: Seq<Seq<Seq<u8>>>,
    delim: Seq<u8>,
    rest: Seq<Seq<u8>>,
    done: Seq<Seq<Point>>,
)
    requires
        is_delimiter_line(delim),
        forall|k: int| 0 <= k < days.len() ==> day_lines_ok(#[trigger] days[k]),
        forall|k: int| 0 <= k < days.len() ==> points_of_lines(#[trigger] days[k]).len() > 0,
    ensures
        process_lines(join_days(days, delim) + rest, done, Seq::empty()) == process_lines(
            rest,
            done + days.map_values(|d: Seq<Seq<u8>>| points_of_lines(d)),
            Seq::empty(),
        ),
    decreases days.len(),
{
    let day_points = |d: Seq<Seq<u8>>| points_of_lines(d);
    if days.len() == 0 {
        assert(join_days(days, delim) + rest =~= rest);
        assert(done + days.map_values(day_points) =~= done);
    } else {
        let d0 = days[0];
        let pts0 = points_of_lines(d0);
        let rest2 = join_days(days.skip(1), delim) + rest;
        assert(join_days(days, delim) + rest =~= d0 + (seq![delim] + rest2));
        lemma_process_append(d0, seq![delim] + rest2, done, Seq::empty());
        lemma_process_day(d0, done, Seq::empty());
        assert(Seq::<Point>::empty() + pts0 =~= pts0);
        lemma_process_append(seq![delim], rest2, done, pts0);
        assert(pts0.len() > 0);
        assert(seq![delim].skip(1) =~= Seq::<Seq<u8>>::empty());
        assert(process_lines(Seq::<Seq<u8>>::empty(), done.push(pts0), Seq::<Point>::empty())
            == Ok::<(Seq<Seq<Point>>, Seq<Point>), ParseError>((done.push(pts0), Seq::empty())));
        assert(process_lines(seq![delim], done, pts0)
            == Ok::<(Seq<Seq<Point>>, Seq<Point>), ParseError>((done.push(pts0), Seq::empty())));
        lemma_process_days(days.skip(1), delim, rest, done.push(pts0));
        assert(done.push(pts0) + days.skip(1).map_values(day_points) =~= done + days.map_values(
            day_points,
        ));
    }
}

/// A file of `n` non-empty day blocks, each closed by a boundary line, and a
/// trailing block parses to `n + 1` day-groups, in order. When the trailing
/// block holds no record — the file ends with a boundary line right after its
/// content — the final day-group is empty: the parser appends the in-progress
/// group unconditionally at the end of the input.
pub proof fn lemma_delimited_groups(
    days: Seq<Seq<Seq<u8>>>,
    delim: Seq<u8>,
    trailing: Seq<Seq<u8>>,
)
    requires
        is_delimiter_line(delim),
        forall|k: int| 0 <= k < days.len() ==> day_lines_ok(#[trigger] days[k]),
        forall|k: int| 0 <= k < days.len() ==> points_of_lines(#[trigger] days[k]).len() > 0,
        day_lines_ok(trailing),
    ensures
        parse_lines_spec(join_days(days, delim) + trailing) is Ok,
        parse_lines_spec(join_days(days, delim) + trailing)->Ok_0.len() == days.len() + 1,
        parse_lines_spec(join_days(days, delim) + trailing)->Ok_0 == days.map_values(
            |d: Seq<Seq<u8>>| points_of_lines(d),
        ).push(points_of_lines(trailing)),
{
    let day_points = |d: Seq<Seq<u8>>| points_of_lines(d);
    lemma_process_days(days, delim, trailing, Seq::empty());
    lemma_process_day(trailing, Seq::empty() + days.map_values(day_points), Seq::empty());
    assert(Seq::<Seq<Point>>::empty() + days.map_values(day_points) =~= days.map_values(
        day_points,
    ));
    assert(Seq::<Point>::empty() + points_of_lines(trailing) =~= points_of_lines(trailing));
}

/// Split raw file contents into day-groups of decoded points.
///
/// Succeeds exactly when every non-blank, non-boundary line is a valid
/// record; the first invalid record aborts with its specific error. On
/// success every decoded point is well-formed.
pub fn parse_corpus(data: &[u8]) -> (r: Result<Vec<Vec<Point>>, ParseError>)
    ensures
        r is Ok <==> parse_spec(data@) is Ok,
        r is Ok ==> Ok::<Seq<Seq<Point>>, ParseError>(groups_view(r->Ok_0@)) == parse_spec(
            data@,
        ),
        r is Err ==> parse_spec(data@) == Err::<Seq<Seq<Point>>, ParseError>(r->Err_0),
        r is Ok ==> forall|g: int, k: int|
            0 <= g < r->Ok_0@.len() && 0 <= k < r->Ok_0@[g]@.len() ==> r->Ok_0@[g]@[k].wf(),
{
    let ghost target = process_lines(split_lines(data@), Seq::empty(), Seq::empty());
    let mut groups: Vec<Vec<Point>> = Vec::new();
    let mut cur: Vec<Point> = Vec::new();
    let mut i: usize = 0;
    proof {
        assert(data@.skip(0) =~= data@);
        assert(groups_view(groups@) =~= Seq::<Seq<Point>>::empty());
    }
    while i < data.len()
        invariant
            i <= data.len(),
            target == process_lines(split_lines(data@), Seq::empty(), Seq::empty()),
            process_lines(split_lines(data@.skip(i as int)), groups_view(groups@), cur@)
                == target,
            forall|g: int, k: int|
                0 <= g < groups@.len() && 0 <= k < groups@[g]@.len() ==> groups@[g]@[k].wf(),
            forall|k: int| 0 <= k < cur@.len() ==> cur@[k].wf(),
        decreases data.len() - i,
    {
        let ghost s_rem = data@.skip(i as int);
        let mut j: usize = i;
        while j < data.len() && data[j] != 10
            invariant
                i <= j <= data.len(),
                forall|k: int| i <= k < j ==> data@[k] != 10,
            decreases data.len() - j,
        {
            j += 1;
        }
        proof {
            assert forall|k: int| 0 <= k < j - i implies s_rem[k] != 10 by {
                assert(s_rem[k] == data@[i + k]);
            }
            if (j - i) < s_rem.len() {
                assert(s_rem[j - i] == data@[j as int]);
            }
            lemma_line_end_char(s_rem, j - i);
        }
        let mut end: usize = j;
        if end > i && data[end - 1] == 13 {
            end = end - 1;
        }
        let ghost line = data@.subrange(i as int, end as int);
        let ghost next_i: int = if j < data.len() {
            j + 1
        } else {
            j as int
        };
        let ghost rest = split_lines(data@.skip(next_i));
        proof {
            // The first line of the remaining input is `line`, and what
            // follows it starts after the newline.
            if j < data.len() {
                assert(s_rem.take(j - i) =~= data@.subrange(i as int, j as int));
                assert(s_rem.skip(j - i + 1) =~= data@.skip(next_i));
            } else {
                assert(s_rem =~= data@.subrange(i as int, j as int));
                assert(data@.skip(next_i) =~= Seq::<u8>::empty());
            }
            let raw = data@.subrange(i as int, j as int);
            if end < j {
                assert(raw[raw.len() - 1] == data@[j - 1]);
                assert(chomp(raw) =~= line);
            } else {
                assert(end == j);
                if j > i {
                    assert(raw[raw.len() - 1] == data@[j - 1]);
                }
                assert(chomp(raw) =~= line);
            }
            assert(split_lines(s_rem) =~~= seq![line] + rest);
            assert((seq![line] + rest).skip(1) =~= rest);
            assert((seq![line] + rest)[0] == line);
        }
        if end == i {
            // blank line: no effect
            proof {
                assert(line.len() == 0);
                assert(process_lines(seq![line] + rest, groups_view(groups@), cur@)
                    == process_lines(rest, groups_view(groups@), cur@));
            }
        } else if data[i] == 48 {
            proof {
                assert(line[0] == data@[i as int]);
            }
            if cur.len() > 0 {
                let ghost old_groups = groups@;
                let ghost old_cur = cur@;
                groups.push(cur);
                cur = Vec::new();
                proof {
                    assert(groups_view(groups@) =~~= groups_view(old_groups).push(old_cur));
                    assert(process_lines(seq![line] + rest, groups_view(old_groups), old_cur)
                        == process_lines(rest, groups_view(groups@), cur@));
                }
            } else {
                proof {
                    assert(process_lines(seq![line] + rest, groups_view(groups@), cur@)
                        == process_lines(rest, groups_view(groups@), cur@));
                }
            }
        } else {
            proof {
                assert(line[0] == data@[i as int]);
                assert(line.len() > 0 && line[0] != 48);
            }
            match Point::from_record(&data[i..end]) {
                Ok(p) => {
                    let ghost old_cur = cur@;
                    cur.push(p);
                    proof {
                        assert(record_ok(line));
                        assert(process_lines(seq![line] + rest, groups_view(groups@), old_cur)
                            == process_lines(rest, groups_view(groups@), cur@));
                    }
                },
                Err(e) => {
                    proof {
                        assert(!record_ok(line));
                        assert(process_lines(seq![line] + rest, groups_view(groups@), cur@)
                            == Err::<(Seq<Seq<Point>>, Seq<Point>), ParseError>(record_err(
                            line,
                        )));
                        assert(target == Err::<(Seq<Seq<Point>>, Seq<Point>), ParseError>(e));
                        assert(parse_spec(data@) == Err::<Seq<Seq<Point>>, ParseError>(e));
                    }
                    return Err(e);
                },
            }
        }
        if j < data.len() {
            i = j + 1;
        } else {
            i = j;
        }
    }
    proof {
        assert(data@.skip(i as int) =~= Seq::<u8>::empty());
        assert(split_lines(Seq::<u8>::empty()) =~~= Seq::<Seq<u8>>::empty());
        assert(target == Ok::<(Seq<Seq<Point>>, Seq<Point>), ParseError>(
            (groups_view(groups@), cur@),
        ));
    }
    let ghost final_groups = groups_view(groups@);
    let ghost final_cur = cur@;
    groups.push(cur);
    proof {
        assert(groups_view(groups@) =~~= final_groups.push(final_cur));
    }
    Ok(groups)
}

} // verus!
