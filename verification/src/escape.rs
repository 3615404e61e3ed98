//! HTML escaping for text destined for HTML body position.

use vstd::prelude::*;

verus! {

/// The replacement for one character in HTML body position: the five
/// HTML-significant characters become entities, every other character
/// stands as itself.
pub open spec fn esc_char(c: char) -> Seq<char> {
    if c == '&' {
        "&amp;"@
    } else if c == '<' {
        "&lt;"@
    } else if c == '>' {
        "&gt;"@
    } else if c == '"' {
        "&quot;"@
    } else if c == '\'' {
        "&#39;"@
    } else {
        seq![c]
    }
}

/// The escaped form of a string: the concatenation of the escapes of its
/// characters, in order.
pub open spec fn esc_seq(s: Seq<char>) -> Seq<char>
    decreases s.len(),
{
    if s.len() == 0 {
        Seq::empty()
    } else {
        esc_seq(s.drop_last()) + esc_char(s.last())
    }
}

/// Escape a string for HTML body position.
pub fn esc_html(s: &str) -> (r: String)
    ensures
        r@ == esc_seq(s@),
{
    let n: usize = s.unicode_len();
    let mut out = String::new();
    let mut i: usize = 0;
    while i < n
        invariant
            n == s@.len(),
            i <= n,
            out@ == esc_seq(s@.subrange(0, i as int)),
        decreases n - i,
    {
        let c = s.get_char(i);
        if c == '&' {
            out.append("&amp;");
        } else if c == '<' {
            out.append("&lt;");
        } else if c == '>' {
            out.append("&gt;");
        } else if c == '"' {
            out.append("&quot;");
        } else if c == '\'' {
            out.append("&#39;");
        } else {
            let piece = s.substring_char(i, i + 1);
            out.append(piece);
            proof {
                assert(s@.subrange(i as int, i + 1) =~= seq![s@[i as int]]);
            }
        }
        proof {
            let pre = s@.subrange(0, i + 1);
            assert(pre.drop_last() =~= s@.subrange(0, i as int));
            assert(pre.last() == s@[i as int]);
        }
        i = i + 1;
    }
    proof {
        assert(s@.subrange(0, n as int) =~= s@);
    }
    out
}

/// Holds at position `i` of `t` when one of the five escape entities
/// starts there, lying wholly within `t`.
pub open spec fn entity_at(t: Seq<char>, i: int) -> bool {
    (i + 5 <= t.len() && t.subrange(i, i + 5) == "&amp;"@) || (i + 4 <= t.len() && t.subrange(
        i,
        i + 4,
    ) == "&lt;"@) || (i + 4 <= t.len() && t.subrange(i, i + 4) == "&gt;"@) || (i + 6 <= t.len()
        && t.subrange(i, i + 6) == "&quot;"@) || (i + 5 <= t.len() && t.subrange(i, i + 5)
        == "&#39;"@)
}

/// Holds of text safe for HTML body position: no raw `<`, `>`, `"` or `'`
/// occurs anywhere, and every `&` begins a complete escape entity.
pub open spec fn well_escaped(t: Seq<char>) -> bool {
    &&& forall|i: int|
        0 <= i < t.len() ==> (#[trigger] t[i]) != '<' && t[i] != '>' && t[i] != '"' && t[i] != '\''
    &&& forall|i: int| 0 <= i < t.len() && (#[trigger] t[i]) == '&' ==> entity_at(t, i)
}

/// Safety is preserved by concatenation: gluing two well-escaped pieces
/// of text leaves every entity intact and introduces no raw character.
pub proof fn lemma_well_escaped_concat(a: Seq<char>, b: Seq<char>)
    requires
        well_escaped(a),
        well_escaped(b),
    ensures
        well_escaped(a + b),
{
    let t = a + b;
    assert forall|i: int| 0 <= i < t.len() && (#[trigger] t[i]) == '&' implies entity_at(
        t,
        i,
    ) by {
        if i < a.len() {
            assert(a[i] == '&');
            assert(entity_at(a, i));
            if i + 5 <= a.len() && a.subrange(i, i + 5) == "&amp;"@ {
                assert(t.subrange(i, i + 5) =~= a.subrange(i, i + 5));
            } else if i + 4 <= a.len() && a.subrange(i, i + 4) == "&lt;"@ {
                assert(t.subrange(i, i + 4) =~= a.subrange(i, i + 4));
            } else if i + 4 <= a.len() && a.subrange(i, i + 4) == "&gt;"@ {
                assert(t.subrange(i, i + 4) =~= a.subrange(i, i + 4));
            } else if i + 6 <= a.len() && a.subrange(i, i + 6) == "&quot;"@ {
                assert(t.subrange(i, i + 6) =~= a.subrange(i, i + 6));
            } else {
                assert(t.subrange(i, i + 5) =~= a.subrange(i, i + 5));
            }
        } else {
            let j = i - a.len();
            assert(b[j] == '&');
            assert(entity_at(b, j));
            if j + 5 <= b.len() && b.subrange(j, j + 5) == "&amp;"@ {
                assert(t.subrange(i, i + 5) =~= b.subrange(j, j + 5));
            } else if j + 4 <= b.len() && b.subrange(j, j + 4) == "&lt;"@ {
                assert(t.subrange(i, i + 4) =~= b.subrange(j, j + 4));
            } else if j + 4 <= b.len() && b.subrange(j, j + 4) == "&gt;"@ {
                assert(t.subrange(i, i + 4) =~= b.subrange(j, j + 4));
            } else if j + 6 <= b.len() && b.subrange(j, j + 6) == "&quot;"@ {
                assert(t.subrange(i, i + 6) =~= b.subrange(j, j + 6));
            } else {
                assert(t.subrange(i, i + 5) =~= b.subrange(j, j + 5));
            }
        }
    }
}

/// The escape of a single character is safe text.
proof fn lemma_esc_char_well_escaped(c: char)
    ensures
        well_escaped(esc_char(c)),
{
    reveal_strlit("&amp;");
    reveal_strlit("&lt;");
    reveal_strlit("&gt;");
    reveal_strlit("&quot;");
    reveal_strlit("&#39;");
    let t = esc_char(c);
    if c == '&' {
        assert(t.subrange(0, 5) =~= "&amp;"@);
        assert(forall|i: int| 1 <= i < t.len() ==> (#[trigger] t[i]) != '&');
    } else if c == '<' {
        assert(t.subrange(0, 4) =~= "&lt;"@);
        assert(forall|i: int| 1 <= i < t.len() ==> (#[trigger] t[i]) != '&');
    } else if c == '>' {
        assert(t.subrange(0, 4) =~= "&gt;"@);
        assert(forall|i: int| 1 <= i < t.len() ==> (#[trigger] t[i]) != '&');
    } else if c == '"' {
        assert(t.subrange(0, 6) =~= "&quot;"@);
        assert(forall|i: int| 1 <= i < t.len() ==> (#[trigger] t[i]) != '&');
    } else if c == '\'' {
        assert(t.subrange(0, 5) =~= "&#39;"@);
        assert(forall|i: int| 1 <= i < t.len() ==> (#[trigger] t[i]) != '&');
    } else {
    }
}

/// Escaping makes any string safe for HTML body position: the result
/// holds no raw `<`, `>`, `"` or `'`, and every `&` in it begins one of
/// the five escape entities, whatever the input held.
pub proof fn lemma_esc_seq_well_escaped(s: Seq<char>)
    ensures
        well_escaped(esc_seq(s)),
    decreases s.len(),
{
    if s.len() == 0 {
    } else {
        lemma_esc_seq_well_escaped(s.drop_last());
        lemma_esc_char_well_escaped(s.last());
        lemma_well_escaped_concat(esc_seq(s.drop_last()), esc_char(s.last()));
    }
}

} // verus!
