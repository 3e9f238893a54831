use vstd::prelude::*;
use vstd::std_specs::iter::IteratorSpec;

verus! {

broadcast use vstd::string::group_string_axioms;

/// `s` cut at every occurrence of `d`, as `str::split` cuts it: a text with
/// `k` occurrences of `d` gives `k + 1` segments, some of them maybe empty.
pub open spec fn split_on(s: Seq<char>, d: char) -> Seq<Seq<char>>
    decreases s.len(),
{
    if s.len() == 0 {
        seq![Seq::empty()]
    } else {
        let prev = split_on(s.drop_last(), d);
        if s.last() == d {
            prev.push(Seq::empty())
        } else {
            prev.update(prev.len() - 1, prev.last().push(s.last()))
        }
    }
}

/// How many times `d` occurs in `s`.
pub open spec fn occurrences(s: Seq<char>, d: char) -> nat
    decreases s.len(),
{
    if s.len() == 0 {
        0
    } else {
        occurrences(s.drop_last(), d) + if s.last() == d {
            1nat
        } else {
            0nat
        }
    }
}

/// `s` with every `:` at its front removed.
pub open spec fn trim_leading_colons(s: Seq<char>) -> Seq<char>
    decreases s.len(),
{
    if s.len() > 0 && s[0] == ':' {
        trim_leading_colons(s.drop_first())
    } else {
        s
    }
}

/// The addressing grammar: a line `:<recipient>;!<payload>` whose only `;` is
/// the one shown gives `(recipient, payload)`, the recipient without the
/// colons at its front; any other line gives `None`.
pub open spec fn parse_line(line: Seq<char>) -> Option<(Seq<char>, Seq<char>)> {
    let parts = split_on(line, ';');
    if line.len() > 0 && line[0] == ':' && parts.len() == 2 && parts[1].len() > 0
        && parts[1][0] == '!' {
        Some((trim_leading_colons(parts[0]), parts[1].drop_first()))
    } else {
        None
    }
}

/// The characters of `s`, in order.
fn chars_of(s: &str) -> (r: Vec<char>)
    ensures
        r@ == s@,
{
    let mut out: Vec<char> = Vec::new();
    let mut it = s.chars();
    loop
        invariant
            out@ + it.remaining() == s@,
            it.obeys_prophetic_iter_laws(),
            it.decrease() is Some,
        ensures
            out@ == s@,
        decreases it.decrease()->0,
    {
        match it.next() {
            Some(c) => {
                out.push(c);
            },
            None => {
                assert(out@ + it.remaining() =~= out@);
                break;
            },
        }
    }
    out
}

proof fn lemma_split_len(s: Seq<char>, d: char)
    ensures
        split_on(s, d).len() == occurrences(s, d) + 1,
    decreases s.len(),
{
    if s.len() > 0 {
        lemma_split_len(s.drop_last(), d);
    }
}

proof fn lemma_occurrences_zero(s: Seq<char>, d: char)
    ensures
        occurrences(s, d) == 0 <==> forall|i: int| 0 <= i < s.len() ==> s[i] != d,
    decreases s.len(),
{
    if s.len() > 0 {
        lemma_occurrences_zero(s.drop_last(), d);
        if occurrences(s, d) == 0 {
            assert forall|i: int| 0 <= i < s.len() implies s[i] != d by {
                if i < s.len() - 1 {
                    assert(s.drop_last()[i] == s[i]);
                }
            }
        }
        if forall|i: int| 0 <= i < s.len() ==> s[i] != d {
            assert(s.last() != d);
            assert forall|i: int| 0 <= i < s.drop_last().len() implies s.drop_last()[i] != d by {
                assert(s.drop_last()[i] == s[i]);
            }
        }
    }
}

proof fn lemma_occurrences_concat(a: Seq<char>, b: Seq<char>, d: char)
    ensures
        occurrences(a + b, d) == occurrences(a, d) + occurrences(b, d),
    decreases b.len(),
{
    if b.len() == 0 {
        assert(a + b =~= a);
    } else {
        assert((a + b).drop_last() =~= a + b.drop_last());
        lemma_occurrences_concat(a, b.drop_last(), d);
    }
}

/// A text with its only `d` between `a` and `b` splits into `a` and `b`.
proof fn lemma_split_once(a: Seq<char>, b: Seq<char>, d: char)
    requires
        forall|i: int| 0 <= i < a.len() ==> a[i] != d,
        forall|i: int| 0 <= i < b.len() ==> b[i] != d,
    ensures
        split_on(a + seq![d] + b, d) == seq![a, b],
    decreases a.len() + b.len(),
{
    if b.len() == 0 {
        assert(a + seq![d] + b =~= a.push(d));
        assert((a.push(d)).drop_last() =~= a);
        lemma_split_free(a, d);
        assert(b =~= Seq::<char>::empty());
        assert(split_on(a.push(d), d) =~= seq![a, b]);
    } else {
        let s = a + seq![d] + b;
        assert(s.drop_last() =~= a + seq![d] + b.drop_last());
        lemma_split_once(a, b.drop_last(), d);
        assert(s.last() == b.last());
        assert(b.drop_last().push(b.last()) =~= b);
        assert(split_on(s, d) =~= seq![a, b]);
    }
}

/// A text without `d` is one segment.
proof fn lemma_split_free(a: Seq<char>, d: char)
    requires
        forall|i: int| 0 <= i < a.len() ==> a[i] != d,
    ensures
        split_on(a, d) == seq![a],
    decreases a.len(),
{
    if a.len() == 0 {
        assert(a =~= Seq::<char>::empty());
        assert(split_on(a, d) =~= seq![a]);
    } else {
        lemma_split_free(a.drop_last(), d);
        assert(a.drop_last().push(a.last()) =~= a);
        assert(split_on(a, d) =~= seq![a]);
    }
}

/// A line `:` + `id` + `;!` + `content`, where neither `id` nor `content`
/// holds a `;` or a newline and `id` does not start with `:`, decodes to
/// recipient `id` and payload `content`.
pub proof fn lemma_well_formed_line_decodes(id: Seq<char>, content: Seq<char>)
    requires
        forall|i: int| 0 <= i < id.len() ==> id[i] != ';' && id[i] != '\n',
        forall|i: int| 0 <= i < content.len() ==> content[i] != ';' && content[i] != '\n',
        id.len() == 0 || id[0] != ':',
    ensures
        parse_line(seq![':'] + id + seq![';', '!'] + content) == Some((id, content)),
{
    let head = seq![':'] + id;
    let tail = seq!['!'] + content;
    let line = seq![':'] + id + seq![';', '!'] + content;
    assert(line =~= head + seq![';'] + tail);
    assert forall|i: int| 0 <= i < head.len() implies head[i] != ';' by {
        if i > 0 {
            assert(head[i] == id[i - 1]);
        }
    }
    assert forall|i: int| 0 <= i < tail.len() implies tail[i] != ';' by {
        if i > 0 {
            assert(tail[i] == content[i - 1]);
        }
    }
    lemma_split_once(head, tail, ';');
    assert(head.drop_first() =~= id);
    assert(trim_leading_colons(head) == trim_leading_colons(id));
    assert(tail.drop_first() =~= content);
}

/// A line that does not start with `:` never decodes.
pub proof fn lemma_no_leading_colon_rejected(line: Seq<char>)
    requires
        line.len() == 0 || line[0] != ':',
    ensures
        parse_line(line) is None,
{
}

/// A line with no `;`, or with more than one, never decodes.
pub proof fn lemma_semicolon_count_rejected(line: Seq<char>)
    requires
        occurrences(line, ';') != 1,
    ensures
        parse_line(line) is None,
{
    lemma_split_len(line, ';');
}

/// A line whose part after a `;` does not start with `!` never decodes.
pub proof fn lemma_missing_bang_rejected(line: Seq<char>, p: int)
    requires
        0 <= p < line.len(),
        line[p] == ';',
        !(p + 1 < line.len() && line[p + 1] == '!'),
    ensures
        parse_line(line) is None,
{
    let a = line.subrange(0, p);
    let b = line.subrange(p + 1, line.len() as int);
    assert(line =~= a + seq![';'] + b);
    if occurrences(line, ';') == 1 {
        lemma_occurrences_concat(a + seq![';'], b, ';');
        lemma_occurrences_concat(a, seq![';'], ';');
        assert(seq![';'].drop_last() =~= Seq::<char>::empty());
        lemma_occurrences_zero(a, ';');
        lemma_occurrences_zero(b, ';');
        lemma_split_once(a, b, ';');
        if b.len() > 0 {
            assert(b[0] == line[p + 1]);
        }
    } else {
        lemma_semicolon_count_rejected(line);
    }
}

proof fn lemma_trim_no_colon_front(s: Seq<char>)
    ensures
        trim_leading_colons(s).len() == 0 || trim_leading_colons(s)[0] != ':',
    decreases s.len(),
{
    if s.len() > 0 && s[0] == ':' {
        lemma_trim_no_colon_front(s.drop_first());
    }
}

/// Every colon at the front of the first segment is removed: a decoded
/// recipient never starts with `:`.
pub proof fn lemma_recipient_has_no_leading_colon(line: Seq<char>)
    requires
        parse_line(line) matches Some((recipient, _payload)),
    ensures
        parse_line(line) matches Some((recipient, _payload)) && (recipient.len() == 0
            || recipient[0] != ':'),
{
    lemma_trim_no_colon_front(split_on(line, ';')[0]);
}

/// Decoding keeps no state: two results for the same line are the same.
pub proof fn lemma_parse_is_pure(
    line: Seq<char>,
    first: Option<(String, String)>,
    second: Option<(String, String)>,
)
    requires
        first.deep_view() == parse_line(line),
        second.deep_view() == parse_line(line),
    ensures
        first.deep_view() == second.deep_view(),
{
}

/// Decodes one line (without its terminator) into `(recipient, payload)`,
/// or `None` where the line does not follow the addressing grammar.
pub fn parse_message(msg: &str) -> (r: Option<(String, String)>)
    ensures
        r.deep_view() == parse_line(msg@),
{
    let cs = chars_of(msg);
    let n = cs.len();
    if n == 0 || cs[0] != ':' {
        return None;
    }
    let ghost line = cs@;
    let mut semis: usize = 0;
    let mut first: usize = 0;
    let mut i: usize = 0;
    while i < n
        invariant
            i <= n,
            n == line.len(),
            cs@ == line,
            semis <= i,
            split_on(line.subrange(0, i as int), ';').len() == semis + 1,
            semis == 0 ==> split_on(line.subrange(0, i as int), ';')[0] == line.subrange(
                0,
                i as int,
            ),
            semis >= 1 ==> first < i && split_on(line.subrange(0, i as int), ';')[0]
                == line.subrange(0, first as int),
            semis == 1 ==> split_on(line.subrange(0, i as int), ';')[1] == line.subrange(
                first + 1,
                i as int,
            ),
        decreases n - i,
    {
        proof {
            assert(line.subrange(0, i + 1).drop_last() =~= line.subrange(0, i as int));
            assert(line.subrange(0, i + 1).last() == line[i as int]);
            assert(line.subrange(0, i + 1) =~= line.subrange(0, i as int).push(line[i as int]));
            if semis >= 1 {
                assert(line.subrange(first + 1, i + 1) =~= line.subrange(
                    first + 1,
                    i as int,
                ).push(line[i as int]));
            }
        }
        if cs[i] == ';' {
            if semis == 0 {
                first = i;
            }
            semis = semis + 1;
        }
        i = i + 1;
    }
    assert(line.subrange(0, n as int) =~= line);
    if semis != 1 {
        return None;
    }
    let mut k: usize = 0;
    while k < first && cs[k] == ':'
        invariant
            k <= first < n,
            n == line.len(),
            cs@ == line,
            trim_leading_colons(line.subrange(0, first as int)) == trim_leading_colons(
                line.subrange(k as int, first as int),
            ),
        decreases first - k,
    {
        assert(line.subrange(k as int, first as int).drop_first() =~= line.subrange(
            k + 1,
            first as int,
        ));
        k = k + 1;
    }
    if first + 1 >= n || cs[first + 1] != '!' {
        return None;
    }
    assert(line.subrange(first + 1, n as int).drop_first() =~= line.subrange(
        first + 2,
        n as int,
    ));
    let recipient = msg.substring_char(k, first).to_owned();
    let payload = msg.substring_char(first + 2, n).to_owned();
    Some((recipient, payload))
}

} // verus!
