//! The path router: a request path split into segments, and the
//! navigation level the segment count selects.

use vstd::prelude::*;

verus! {

/// A path cut at every `/`, empty pieces kept: one more piece than
/// there are separators.
pub open spec fn spec_split(s: Seq<char>) -> Seq<Seq<char>>
    decreases s.len(),
{
    if s.len() == 0 {
        seq![Seq::empty()]
    } else if s.last() == '/' {
        spec_split(s.drop_last()).push(Seq::empty())
    } else {
        let sp = spec_split(s.drop_last());
        sp.update(sp.len() - 1, sp.last().push(s.last()))
    }
}

/// The segments of a path: the pieces between separators, empty ones
/// discarded.
pub open spec fn spec_segments(s: Seq<char>) -> Seq<Seq<char>> {
    spec_split(s).filter(|t: Seq<char>| t.len() > 0)
}

/// A split holds at least one piece.
proof fn lemma_split_nonempty(s: Seq<char>)
    ensures
        spec_split(s).len() >= 1,
    decreases s.len(),
{
    if s.len() > 0 {
        lemma_split_nonempty(s.drop_last());
    }
}

/// Split a path into its non-empty segments.
pub fn split_segments(path: &str) -> (r: Vec<String>)
    ensures
        r.deep_view() == spec_segments(path@),
{
    let n: usize = path.unicode_len();
    let mut done: Vec<String> = Vec::new();
    let mut cur = String::new();
    proof {
        assert(done.deep_view() =~= Seq::<Seq<char>>::empty());
        assert(path@.subrange(0, 0) =~= Seq::<char>::empty());
        reveal(Seq::filter);
    }
    let mut i: usize = 0;
    while i < n
        invariant
            n == path@.len(),
            i <= n,
            spec_split(path@.subrange(0, i as int)).len() >= 1,
            cur@ == spec_split(path@.subrange(0, i as int)).last(),
            done.deep_view() == spec_split(path@.subrange(0, i as int)).drop_last().filter(
                (|t: Seq<char>| t.len() > 0),
            ),
        decreases n - i,
    {
        let ghost pref = path@.subrange(0, i as int);
        let ghost sp = spec_split(pref);
        let ghost next = path@.subrange(0, i + 1);
        proof {
            lemma_split_nonempty(pref);
            assert(next.drop_last() =~= pref);
            assert(next.last() == path@[i as int]);
        }
        let c = path.get_char(i);
        if c == '/' {
            proof {
                reveal(Seq::filter);
                assert(spec_split(next) == sp.push(Seq::<char>::empty()));
                assert(spec_split(next).drop_last() =~= sp);
                assert(sp.drop_last().push(sp.last()) =~= sp);
            }
            if cur.as_str().unicode_len() > 0 {
                done.push(cur);
                proof {
                    assert(done.deep_view() =~= sp.drop_last().filter(
                        (|t: Seq<char>| t.len() > 0),
                    ).push(sp.last()));
                    assert(sp.filter((|t: Seq<char>| t.len() > 0)) == sp.drop_last().filter(
                        (|t: Seq<char>| t.len() > 0),
                    ).push(sp.last()));
                }
            } else {
                proof {
                    assert(sp.filter((|t: Seq<char>| t.len() > 0)) == sp.drop_last().filter(
                        (|t: Seq<char>| t.len() > 0),
                    ));
                }
            }
            cur = String::new();
        } else {
            let piece = path.substring_char(i, i + 1);
            cur.append(piece);
            proof {
                assert(path@.subrange(i as int, i + 1) =~= seq![path@[i as int]]);
                let upd = sp.update(sp.len() - 1, sp.last().push(path@[i as int]));
                assert(spec_split(next) == upd);
                assert(upd.last() == sp.last().push(path@[i as int]));
                assert(upd.drop_last() =~= sp.drop_last());
            }
        }
        i = i + 1;
    }
    proof {
        assert(path@.subrange(0, n as int) =~= path@);
        reveal(Seq::filter);
        let sp = spec_split(path@);
        lemma_split_nonempty(path@);
        assert(sp.drop_last().push(sp.last()) =~= sp);
    }
    if cur.as_str().unicode_len() > 0 {
        done.push(cur);
        proof {
            let sp = spec_split(path@);
            assert(done.deep_view() =~= sp.drop_last().filter((|t: Seq<char>| t.len() > 0)).push(
                sp.last(),
            ));
            assert(sp.filter((|t: Seq<char>| t.len() > 0)) == sp.drop_last().filter(
                (|t: Seq<char>| t.len() > 0),
            ).push(sp.last()));
        }
    } else {
        proof {
            let sp = spec_split(path@);
            assert(sp.filter((|t: Seq<char>| t.len() > 0)) == sp.drop_last().filter(
                (|t: Seq<char>| t.len() > 0),
            ));
        }
    }
    done
}

/// The navigation level a path selects: the schema listing at the root,
/// the table listing under one segment, the row view under two, and the
/// not-found level under any deeper path.
pub enum Level {
    SchemaList,
    TableList(String),
    RowData(String, String),
    NotFound,
}

/// Map a request path onto its navigation level.
pub fn route(path: &str) -> (r: Level)
    ensures
        ({
            let segs = spec_segments(path@);
            match r {
                Level::SchemaList => segs.len() == 0,
                Level::TableList(schema) => segs.len() == 1 && schema@ == segs[0],
                Level::RowData(schema, table) => segs.len() == 2 && schema@ == segs[0] && table@
                    == segs[1],
                Level::NotFound => segs.len() >= 3,
            }
        }),
{
    let mut segs = split_segments(path);
    proof {
        assert(segs.deep_view().len() == segs@.len());
    }
    if segs.len() == 0 {
        Level::SchemaList
    } else if segs.len() == 1 {
        let s = segs.remove(0);
        Level::TableList(s)
    } else if segs.len() == 2 {
        let s = segs.remove(0);
        let t = segs.remove(0);
        Level::RowData(s, t)
    } else {
        Level::NotFound
    }
}

} // verus!
