//! Catalog logic: which namespaces are shown, and the text of the three
//! read-only queries issued against the database.

use vstd::prelude::*;

verus! {

/// A namespace is reserved when it carries the system prefix `pg_` or is
/// the information-catalog namespace itself; reserved namespaces are kept
/// out of every listing.
pub open spec fn spec_reserved(n: Seq<char>) -> bool {
    (n.len() >= 3 && n.subrange(0, 3) == "pg_"@) || n == "information_schema"@
}

/// Decide whether a namespace name is reserved.
pub fn is_reserved(name: &String) -> (r: bool)
    ensures
        r == spec_reserved(name@),
{
    proof {
        reveal_strlit("pg_");
        reveal_strlit("information_schema");
    }
    let s = name.as_str();
    let n = s.unicode_len();
    let prefixed = if n >= 3 {
        let p = s.get_char(0) == 'p' && s.get_char(1) == 'g' && s.get_char(2) == '_';
        proof {
            if p {
                assert(name@.subrange(0, 3) =~= "pg_"@);
            } else {
                assert(name@.subrange(0, 3)[0] == name@[0]);
                assert(name@.subrange(0, 3)[1] == name@[1]);
                assert(name@.subrange(0, 3)[2] == name@[2]);
            }
        }
        p
    } else {
        false
    };
    let info = String::from_str("information_schema");
    prefixed || name.eq(&info)
}

/// The namespaces shown to the user: the catalog listing with every
/// reserved name removed, in the listing's own order.
pub open spec fn spec_user_schemas(names: Seq<Seq<char>>) -> Seq<Seq<char>> {
    names.filter(|n: Seq<char>| !spec_reserved(n))
}

/// Keep the user-visible namespaces of a catalog listing.
pub fn user_schemas(names: &Vec<String>) -> (r: Vec<String>)
    ensures
        r.deep_view() == spec_user_schemas(names.deep_view()),
{
    let mut out: Vec<String> = Vec::new();
    let mut i: usize = 0;
    while i < names.len()
        invariant
            i <= names.len(),
            out.deep_view() == spec_user_schemas(names.deep_view().take(i as int)),
        decreases names.len() - i,
    {
        let ghost old_dv = out.deep_view();
        let name = &names[i];
        if !is_reserved(name) {
            out.push(name.clone());
            proof {
                assert(out.deep_view() =~= old_dv.push(name@));
            }
        }
        proof {
            reveal(Seq::filter);
            let pred = |n: Seq<char>| !spec_reserved(n);
            let pref = names.deep_view().take(i + 1);
            assert(pref.drop_last() =~= names.deep_view().take(i as int));
            assert(pref.last() == name@);
            assert(pref.filter(pred) == if pred(name@) {
                pref.drop_last().filter(pred).push(name@)
            } else {
                pref.drop_last().filter(pred)
            });
            assert(pref.drop_last().filter(pred) == names.deep_view().take(i as int).filter(pred));
            assert(out.deep_view() == pref.filter(pred));
        }
        i = i + 1;
    }
    proof {
        assert(names.deep_view().take(names.len() as int) =~= names.deep_view());
    }
    out
}

/// Filtering keeps every element that satisfies the predicate and is the
/// identity on a sequence whose elements all satisfy it.
proof fn lemma_filter_all<A>(t: Seq<A>, pred: spec_fn(A) -> bool)
    requires
        forall|i: int| 0 <= i < t.len() ==> pred(#[trigger] t[i]),
    ensures
        t.filter(pred) == t,
    decreases t.len(),
{
    reveal(Seq::filter);
    if t.len() == 0 {
        assert(t.filter(pred) =~= t);
    } else {
        lemma_filter_all(t.drop_last(), pred);
        assert(pred(t.last()));
        assert(t.filter(pred) =~= t.drop_last().push(t.last()));
        assert(t.drop_last().push(t.last()) =~= t);
    }
}

/// The normalized schema listing: the user-visible namespaces of a raw
/// catalog listing, in lexicographic order.
pub open spec fn spec_listing(names: Seq<Seq<char>>) -> Seq<Seq<char>> {
    crate::order::spec_sort(spec_user_schemas(names))
}

/// Normalize a raw catalog listing into the schema listing shown.
pub fn list_schemas(raw: &Vec<String>) -> (r: Vec<String>)
    ensures
        r.deep_view() == spec_listing(raw.deep_view()),
{
    crate::order::sort_names(user_schemas(raw))
}

/// Every name of the schema listing stands in the filtered listing too.
proof fn lemma_listing_membership(names: Seq<Seq<char>>, i: int)
    requires
        0 <= i < spec_listing(names).len(),
    ensures
        spec_user_schemas(names).contains(spec_listing(names)[i]),
{
    broadcast use vstd::seq_lib::group_to_multiset_ensures;

    crate::order::lemma_sort_props(spec_user_schemas(names));
    let kept = spec_user_schemas(names);
    let shown = spec_listing(names);
    assert(shown.contains(shown[i]));
    assert(shown.to_multiset().count(shown[i]) > 0);
    assert(kept.to_multiset().count(shown[i]) > 0);
}

/// No name in the schema listing carries the reserved-system prefix or
/// equals the information-catalog namespace.
pub proof fn lemma_listing_unreserved(names: Seq<Seq<char>>, i: int)
    requires
        0 <= i < spec_listing(names).len(),
    ensures
        !spec_reserved(spec_listing(names)[i]),
{
    let pred = |n: Seq<char>| !spec_reserved(n);
    lemma_listing_membership(names, i);
    let kept = spec_user_schemas(names);
    let k = choose|k: int| 0 <= k < kept.len() && kept[k] == spec_listing(names)[i];
    names.lemma_filter_pred(pred, k);
}

/// The schema listing is in lexicographic order.
pub proof fn lemma_listing_sorted(names: Seq<Seq<char>>)
    ensures
        vstd::relations::sorted_by(spec_listing(names), crate::order::lex_leq_fn()),
{
    crate::order::lemma_sort_props(spec_user_schemas(names));
}

/// Listing the schemas is idempotent: with no change to the catalog
/// between two readings, normalizing an already normalized listing
/// returns it unchanged.
pub proof fn lemma_listing_idempotent(names: Seq<Seq<char>>)
    ensures
        spec_listing(spec_listing(names)) == spec_listing(names),
{
    let pred = |n: Seq<char>| !spec_reserved(n);
    let shown = spec_listing(names);
    assert forall|i: int| 0 <= i < shown.len() implies pred(#[trigger] shown[i]) by {
        lemma_listing_membership(names, i);
        let kept = spec_user_schemas(names);
        let k = choose|k: int| 0 <= k < kept.len() && kept[k] == shown[i];
        names.lemma_filter_pred(pred, k);
    }
    lemma_filter_all(shown, pred);
    lemma_listing_sorted(names);
    crate::order::lemma_sort_of_sorted(shown);
}

/// The catalog query behind the schema listing: every namespace name,
/// reserved ones already left out, in lexicographic order.
pub fn schemas_query() -> (r: String)
    ensures
        r@ == "SELECT nspname::text FROM pg_namespace WHERE nspname NOT LIKE 'pg_%' AND nspname <> 'information_schema' ORDER BY nspname"@,
{
    String::from_str(
        "SELECT nspname::text FROM pg_namespace WHERE nspname NOT LIKE 'pg_%' AND nspname <> 'information_schema' ORDER BY nspname",
    )
}

/// The catalog query behind the table listing of one schema: base tables
/// only, views and the like left out. The schema name passes straight
/// into string-literal position; the caller answers for it.
pub fn tables_query(schema: &str) -> (r: String)
    ensures
        r@ == "SELECT table_name::text FROM information_schema.tables WHERE table_schema = '"@
            + schema@ + "' AND table_type = 'BASE TABLE'"@,
{
    let mut q = String::from_str(
        "SELECT table_name::text FROM information_schema.tables WHERE table_schema = '",
    );
    q.append(schema);
    q.append("' AND table_type = 'BASE TABLE'");
    q
}

/// The body of a quoted identifier: every embedded double quote doubled,
/// every other character kept.
pub open spec fn spec_quote_body(n: Seq<char>) -> Seq<char>
    decreases n.len(),
{
    if n.len() == 0 {
        Seq::empty()
    } else {
        spec_quote_body(n.drop_last()) + (if n.last() == '"' {
            seq!['"', '"']
        } else {
            seq![n.last()]
        })
    }
}

/// An identifier quoted for identifier position in a query: wrapped in
/// double quotes, embedded double quotes doubled.
pub open spec fn spec_quote_ident(n: Seq<char>) -> Seq<char> {
    seq!['"'] + spec_quote_body(n) + seq!['"']
}

/// Quote a name for identifier position in a query.
pub fn quote_ident(name: &str) -> (r: String)
    ensures
        r@ == spec_quote_ident(name@),
{
    proof {
        reveal_strlit("\"");
        reveal_strlit("\"\"");
    }
    let n: usize = name.unicode_len();
    let mut out = String::from_str("\"");
    let mut i: usize = 0;
    while i < n
        invariant
            n == name@.len(),
            i <= n,
            out@ == seq!['"'] + spec_quote_body(name@.subrange(0, i as int)),
        decreases n - i,
    {
        let c = name.get_char(i);
        if c == '"' {
            out.append("\"\"");
            proof {
                reveal_strlit("\"\"");
                assert("\"\""@ =~= seq!['"', '"']);
            }
        } else {
            let piece = name.substring_char(i, i + 1);
            out.append(piece);
            proof {
                assert(name@.subrange(i as int, i + 1) =~= seq![name@[i as int]]);
            }
        }
        proof {
            let pre = name@.subrange(0, i + 1);
            assert(pre.drop_last() =~= name@.subrange(0, i as int));
            assert(pre.last() == name@[i as int]);
        }
        i = i + 1;
    }
    out.append("\"");
    proof {
        assert(name@.subrange(0, n as int) =~= name@);
        assert("\""@ =~= seq!['"']);
    }
    out
}

/// The full-scan query behind the row view of one table: both names
/// quoted as identifiers.
pub fn row_query(schema: &str, table: &str) -> (r: String)
    ensures
        r@ == "SELECT * FROM "@ + spec_quote_ident(schema@) + "."@ + spec_quote_ident(table@),
{
    let mut q = String::from_str("SELECT * FROM ");
    let qs = quote_ident(schema);
    q.append(qs.as_str());
    q.append(".");
    let qt = quote_ident(table);
    q.append(qt.as_str());
    q
}

/// Decide whether a name stands in a catalog listing; names not listed
/// are never handed on to identifier position.
pub fn contains_name(names: &Vec<String>, name: &String) -> (r: bool)
    ensures
        r == names.deep_view().contains(name@),
{
    let mut i: usize = 0;
    while i < names.len()
        invariant
            i <= names.len(),
            forall|k: int| 0 <= k < i ==> names.deep_view()[k] != name@,
        decreases names.len() - i,
    {
        if names[i].eq(name) {
            proof {
                assert(names.deep_view()[i as int] == name@);
            }
            return true;
        }
        i = i + 1;
    }
    proof {
        assert(forall|k: int|
            0 <= k < names.deep_view().len() ==> names.deep_view()[k] != name@);
    }
    false
}

} // verus!
