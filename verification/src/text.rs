//! Text transformations used by the site models: HTML escaping, id
//! derivation from titles, and the lexicographic order on strings that all
//! page listings are sorted by.

use vstd::prelude::*;
use vstd::string::*;

verus! {

// ---------------------------------------------------------------------------
// HTML escaping
// ---------------------------------------------------------------------------
/// The replacement for one character under HTML escaping.
pub open spec fn escape_char(c: char) -> Seq<char> {
    if c == '&' {
        "&amp;"@
    } else if c == '<' {
        "&lt;"@
    } else if c == '>' {
        "&gt;"@
    } else if c == '"' {
        "&quot;"@
    } else if c == '\'' {
        "&#x27;"@
    } else if c == '/' {
        "&#x2F;"@
    } else {
        seq![c]
    }
}

/// HTML escaping of a whole string: each character replaced by its
/// entity, all others kept in order.
pub open spec fn spec_escape_html(s: Seq<char>) -> Seq<char>
    decreases s.len(),
{
    if s.len() == 0 {
        Seq::empty()
    } else {
        spec_escape_html(s.drop_last()) + escape_char(s.last())
    }
}

/// Relies on tera::escape_html: replaces '&', '<', '>', '"', '\'' and '/'
/// by their HTML entities and keeps every other character.
#[verifier::external_body]
pub(crate) fn escape_html(s: &str) -> (r: String)
    ensures
        r@ == spec_escape_html(s@),
{
    tera::escape_html(s)
}

/// A string with none of the characters that HTML escaping rewrites.
pub open spec fn escape_free(s: Seq<char>) -> bool {
    forall|i: int|
        0 <= i < s.len() ==> s[i] != '&' && s[i] != '<' && s[i] != '>' && s[i] != '"' && s[i]
            != '\'' && s[i] != '/'
}

/// Escaping leaves a string without escapable characters unchanged.
pub proof fn lemma_escape_free_identity(s: Seq<char>)
    requires
        escape_free(s),
    ensures
        spec_escape_html(s) == s,
    decreases s.len(),
{
    if s.len() == 0 {
        assert(spec_escape_html(s) =~= s);
    } else {
        lemma_escape_free_identity(s.drop_last());
        assert(spec_escape_html(s) =~= s.drop_last() + escape_char(s.last()));
        assert(escape_char(s.last()) =~= seq![s.last()]);
        assert(s.drop_last() + seq![s.last()] =~= s);
    }
}

/// No escaped string contains a raw '<' or '>' character.
pub proof fn lemma_escape_no_raw_tags(s: Seq<char>)
    ensures
        forall|i: int|
            0 <= i < spec_escape_html(s).len() ==> spec_escape_html(s)[i] != '<'
                && spec_escape_html(s)[i] != '>',
    decreases s.len(),
{
    reveal_strlit("&amp;");
    reveal_strlit("&lt;");
    reveal_strlit("&gt;");
    reveal_strlit("&quot;");
    reveal_strlit("&#x27;");
    reveal_strlit("&#x2F;");
    if s.len() > 0 {
        lemma_escape_no_raw_tags(s.drop_last());
        let left = spec_escape_html(s.drop_last());
        let right = escape_char(s.last());
        assert(forall|i: int| 0 <= i < right.len() ==> right[i] != '<' && right[i] != '>');
        assert(spec_escape_html(s) == left + right);
        assert forall|i: int| 0 <= i < spec_escape_html(s).len() implies spec_escape_html(s)[i]
            != '<' && spec_escape_html(s)[i] != '>' by {
            if i < left.len() {
                assert(spec_escape_html(s)[i] == left[i]);
            } else {
                assert(spec_escape_html(s)[i] == right[i - left.len()]);
            }
        }
    }
}

// ---------------------------------------------------------------------------
// Id derivation
// ---------------------------------------------------------------------------
/// The result of Unicode lowercasing, a function of the characters alone.
pub uninterp spec fn lower_of(s: Seq<char>) -> Seq<char>;

/// Relies on str::to_lowercase: the result depends on the characters of the
/// argument alone, and an empty string stays empty.
#[verifier::external_body]
fn lowercase(s: &str) -> (r: String)
    ensures
        r@ == lower_of(s@),
        s@.len() == 0 ==> r@.len() == 0,
{
    s.to_lowercase()
}

/// Every ASCII space replaced by a hyphen.
pub open spec fn spec_replace_spaces(s: Seq<char>) -> Seq<char> {
    s.map_values(|c: char| if c == ' ' { '-' } else { c })
}

/// The id of a title: its lowercase form with spaces replaced by hyphens.
pub open spec fn spec_title_to_id(title: Seq<char>) -> Seq<char> {
    spec_replace_spaces(lower_of(title))
}

/// The id depends on the title alone: equal titles give equal ids.
pub proof fn lemma_id_deterministic(a: Seq<char>, b: Seq<char>)
    requires
        a == b,
    ensures
        spec_title_to_id(a) == spec_title_to_id(b),
{
}

/// Derives the URL-safe id of a title: lowercased, spaces become hyphens.
pub fn title_to_id(title: String) -> (r: String)
    ensures
        r@ == spec_title_to_id(title@),
{
    let lowered = lowercase(title.as_str());
    let n = lowered.as_str().unicode_len();
    let mut out = String::new();
    let mut i: usize = 0;
    while i < n
        invariant
            n == lowered@.len(),
            0 <= i <= n,
            out@ == spec_replace_spaces(lowered@.take(i as int)),
        decreases n - i,
    {
        let c = lowered.as_str().get_char(i);
        if c == ' ' {
            out.append("-");
        } else {
            let piece = lowered.as_str().substring_char(i, i + 1);
            out.append(piece);
        }
        proof {
            reveal_strlit("-");
            assert(out@ =~= spec_replace_spaces(lowered@.take(i as int + 1)));
        }
        i = i + 1;
    }
    proof {
        assert(lowered@.take(n as int) =~= lowered@);
    }
    out
}

/// Returns its argument: a plain string is already a title.
pub fn string_to_title(s: String) -> (r: String)
    ensures
        r == s,
{
    s
}

// ---------------------------------------------------------------------------
// Lexicographic order on strings
// ---------------------------------------------------------------------------
/// Lexicographic "less than or equal" on character sequences, by Unicode
/// scalar value. On valid strings this coincides with the byte order that
/// `String` comparison uses.
pub open spec fn lex_le(a: Seq<char>, b: Seq<char>) -> bool
    decreases a.len(),
{
    if a.len() == 0 {
        true
    } else if b.len() == 0 {
        false
    } else if a[0] < b[0] {
        true
    } else if b[0] < a[0] {
        false
    } else {
        lex_le(a.drop_first(), b.drop_first())
    }
}

/// Strict lexicographic order.
pub open spec fn lex_lt(a: Seq<char>, b: Seq<char>) -> bool {
    lex_le(a, b) && a != b
}

/// The lexicographic order is total.
pub proof fn lemma_lex_le_total(a: Seq<char>, b: Seq<char>)
    ensures
        lex_le(a, b) || lex_le(b, a),
    decreases a.len(),
{
    if a.len() == 0 {
        assert(lex_le(a, b));
    } else if b.len() == 0 {
        assert(lex_le(b, a));
    } else if a[0] < b[0] {
        assert(lex_le(a, b));
    } else if b[0] < a[0] {
        assert(lex_le(b, a));
    } else {
        lemma_lex_le_total(a.drop_first(), b.drop_first());
        assert(lex_le(a, b) == lex_le(a.drop_first(), b.drop_first()));
        assert(lex_le(b, a) == lex_le(b.drop_first(), a.drop_first()));
    }
}

/// The lexicographic order is antisymmetric.
pub proof fn lemma_lex_le_antisymmetric(a: Seq<char>, b: Seq<char>)
    requires
        lex_le(a, b),
        lex_le(b, a),
    ensures
        a == b,
    decreases a.len(),
{
    if a.len() == 0 {
        assert(lex_le(b, a) ==> b.len() == 0);
        assert(a =~= b);
    } else {
        assert(lex_le(a, b) ==> b.len() > 0);
        if a[0] < b[0] || b[0] < a[0] {
            assert(!(lex_le(a, b) && lex_le(b, a)));
        } else {
            assert(b.len() > 0);
            assert(a[0] == b[0]);
            assert(lex_le(a, b) == lex_le(a.drop_first(), b.drop_first()));
            assert(lex_le(b, a) == lex_le(b.drop_first(), a.drop_first()));
            lemma_lex_le_antisymmetric(a.drop_first(), b.drop_first());
            assert(a =~= seq![a[0]] + a.drop_first());
            assert(b =~= seq![b[0]] + b.drop_first());
            assert(a == b);
        }
    }
}

/// The lexicographic order is transitive.
pub proof fn lemma_lex_le_transitive(a: Seq<char>, b: Seq<char>, c: Seq<char>)
    requires
        lex_le(a, b),
        lex_le(b, c),
    ensures
        lex_le(a, c),
    decreases a.len(),
{
    if a.len() == 0 {
        assert(lex_le(a, c));
    } else {
        assert(b.len() > 0 && c.len() > 0);
        if a[0] < b[0] {
            assert(a[0] < c[0]);
        } else if b[0] < c[0] {
            assert(a[0] < c[0]);
        } else {
            assert(a[0] == b[0] && b[0] == c[0]);
            assert(lex_le(a, b) == lex_le(a.drop_first(), b.drop_first()));
            assert(lex_le(b, c) == lex_le(b.drop_first(), c.drop_first()));
            lemma_lex_le_transitive(a.drop_first(), b.drop_first(), c.drop_first());
            assert(lex_le(a, c) == lex_le(a.drop_first(), c.drop_first()));
        }
    }
}

/// If `a` and `b` agree on their first `i` characters, their order is
/// decided by the rest.
proof fn lemma_lex_le_common_prefix(a: Seq<char>, b: Seq<char>, i: int)
    requires
        0 <= i <= a.len(),
        i <= b.len(),
        forall|j: int| 0 <= j < i ==> a[j] == b[j],
    ensures
        lex_le(a, b) == lex_le(a.skip(i), b.skip(i)),
    decreases i,
{
    if i > 0 {
        assert(a.len() > 0 && b.len() > 0 && a[0] == b[0]);
        lemma_lex_le_common_prefix(a.drop_first(), b.drop_first(), i - 1);
        assert(a.drop_first().skip(i - 1) =~= a.skip(i));
        assert(b.drop_first().skip(i - 1) =~= b.skip(i));
    } else {
        assert(a.skip(0) =~= a);
        assert(b.skip(0) =~= b);
    }
}

/// Compares two strings in lexicographic order.
pub fn str_le(a: &str, b: &str) -> (r: bool)
    ensures
        r == lex_le(a@, b@),
{
    let na = a.unicode_len();
    let nb = b.unicode_len();
    let mut i: usize = 0;
    while i < na && i < nb
        invariant
            na == a@.len(),
            nb == b@.len(),
            0 <= i <= na,
            i <= nb,
            forall|j: int| 0 <= j < i ==> a@[j] == b@[j],
        decreases na - i,
    {
        let ca = a.get_char(i);
        let cb = b.get_char(i);
        if ca < cb {
            proof {
                lemma_lex_le_common_prefix(a@, b@, i as int);
                assert(a@.skip(i as int)[0] == a@[i as int]);
                assert(b@.skip(i as int)[0] == b@[i as int]);
            }
            return true;
        }
        if cb < ca {
            proof {
                lemma_lex_le_common_prefix(a@, b@, i as int);
                assert(a@.skip(i as int)[0] == a@[i as int]);
                assert(b@.skip(i as int)[0] == b@[i as int]);
            }
            return false;
        }
        proof {
            assert(a@[i as int] == b@[i as int]);
        }
        i = i + 1;
    }
    proof {
        lemma_lex_le_common_prefix(a@, b@, i as int);
        if i == na {
            assert(a@.skip(i as int).len() == 0);
        } else {
            assert(b@.skip(i as int).len() == 0);
            assert(a@.skip(i as int).len() > 0);
        }
    }
    na <= nb
}

} // verus!
