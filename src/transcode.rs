//! Rewriting of single field tokens from the bank's conventions to the
//! budgeting application's.
use vstd::prelude::*;
use vstd::string::StringExecFns;

verus! {

/// Appends one character to a string.
///
/// Relies on `String::push`: the string grows by exactly that character.
#[verifier::external_body]
pub(crate) fn push_char(s: &mut String, c: char)
    ensures
        final(s)@ == old(s)@.push(c),
{
    s.push(c);
}

/// The amount token with every `.` (thousands separator) removed and then
/// every `,` (decimal separator) turned into `.`.
pub open spec fn amount_text(raw: Seq<char>) -> Seq<char> {
    raw.filter(|c: char| c != '.').map_values(|c: char| if c == ',' { '.' } else { c })
}

/// Rewrites an amount such as `1.234,56` into `1234.56`.
///
/// This is a textual rewrite only: no number is parsed and any text is
/// accepted.
pub fn transcode_amount(raw: &str) -> (r: String)
    ensures
        r@ == amount_text(raw@),
{
    let mut out = String::new();
    for c in it: raw.chars()
        invariant
            it.seq() == raw@,
            out@ == amount_text(raw@.take(it.index() as int)),
    {
        let ghost i = it.index();
        proof {
            let pred = |c: char| c != '.';
            assert(raw@.take(i + 1).drop_last() =~= raw@.take(i as int));
            reveal(Seq::filter);
            assert(raw@.take(i + 1).filter(pred) == if c != '.' {
                raw@.take(i as int).filter(pred).push(c)
            } else {
                raw@.take(i as int).filter(pred)
            });
        }
        if c == ',' {
            push_char(&mut out, '.');
        } else if c != '.' {
            push_char(&mut out, c);
        }
        assert(out@ =~= amount_text(raw@.take(i + 1)));
    }
    assert(raw@.take(raw@.len() as int) =~= raw@);
    out
}

/// The pieces of `s` between occurrences of `sep`, in order; there is always
/// at least one piece, and empty pieces are kept.
pub open spec fn split_text(s: Seq<char>, sep: char) -> Seq<Seq<char>>
    decreases s.len(),
{
    if s.len() == 0 {
        seq![Seq::empty()]
    } else {
        let parts = split_text(s.drop_last(), sep);
        if s.last() == sep {
            parts.push(Seq::empty())
        } else {
            parts.update(parts.len() - 1, parts.last().push(s.last()))
        }
    }
}

/// The pieces written one after another with `sep` between each two.
pub open spec fn join_text(parts: Seq<Seq<char>>, sep: char) -> Seq<char>
    decreases parts.len(),
{
    if parts.len() == 0 {
        Seq::empty()
    } else if parts.len() == 1 {
        parts[0]
    } else {
        join_text(parts.drop_last(), sep).push(sep) + parts.last()
    }
}

/// The date token with its `-`-separated components in reverse order.
pub open spec fn date_text(raw: Seq<char>) -> Seq<char> {
    join_text(split_text(raw, '-').reverse(), '-')
}

/// Rewrites a date such as `20-10-2021` into `2021-10-20` by reversing the
/// order of its `-`-separated components.
///
/// Neither the number of components nor the calendar is checked.
pub fn transcode_date(raw: &str) -> (r: String)
    ensures
        r@ == date_text(raw@),
{
    let mut parts: Vec<String> = Vec::new();
    let mut cur = String::new();
    for c in it: raw.chars()
        invariant
            it.seq() == raw@,
            parts.deep_view().push(cur@) == split_text(raw@.take(it.index() as int), '-'),
    {
        let ghost i = it.index();
        proof {
            assert(raw@.take(i + 1).drop_last() =~= raw@.take(i as int));
        }
        if c == '-' {
            let done = cur;
            parts.push(done);
            cur = String::new();
            assert(parts.deep_view().push(cur@) =~= split_text(raw@.take(i + 1), '-'));
        } else {
            let ghost before = parts.deep_view().push(cur@);
            push_char(&mut cur, c);
            assert(parts.deep_view().push(cur@) =~= before.update(
                before.len() - 1,
                before.last().push(c),
            ));
        }
    }
    assert(raw@.take(raw@.len() as int) =~= raw@);
    parts.push(cur);
    let ghost pieces = split_text(raw@, '-');
    assert(parts.deep_view() =~= pieces);
    let m = parts.len();
    let mut out = String::new();
    let mut k: usize = 0;
    while k < m
        invariant
            m == parts.len(),
            m >= 1,
            k <= m,
            parts.deep_view() == pieces,
            out@ == join_text(pieces.reverse().take(k as int), '-'),
        decreases m - k,
    {
        let ghost rev = pieces.reverse();
        proof {
            assert(rev.take(k + 1).drop_last() =~= rev.take(k as int));
            assert(rev.take(k + 1).last() == parts.deep_view()[m - 1 - k]);
        }
        if k > 0 {
            push_char(&mut out, '-');
        }
        out.append(parts[m - 1 - k].as_str());
        assert(out@ =~= join_text(rev.take(k + 1), '-'));
        k = k + 1;
    }
    assert(pieces.reverse().take(m as int) =~= pieces.reverse());
    out
}

/// A text without the separator is a single piece.
proof fn lemma_split_single(l: Seq<char>, sep: char)
    requires
        !l.contains(sep),
    ensures
        split_text(l, sep) == seq![l],
    decreases l.len(),
{
    if l.len() > 0 {
        assert(!l.drop_last().contains(sep)) by {
            if l.drop_last().contains(sep) {
                let j = choose|j: int| 0 <= j < l.drop_last().len() && l.drop_last()[j] == sep;
                assert(l[j] == sep);
            }
        }
        lemma_split_single(l.drop_last(), sep);
        assert(l.last() != sep) by {
            assert(l[l.len() - 1] == l.last());
        }
        assert(l.drop_last().push(l.last()) =~= l);
        assert(split_text(l, sep) =~= seq![l]);
    } else {
        assert(l =~= Seq::<char>::empty());
    }
}

/// Writing a separator and then a text without separator adds exactly that
/// text as one more piece.
proof fn lemma_split_append(x: Seq<char>, l: Seq<char>, sep: char)
    requires
        !l.contains(sep),
    ensures
        split_text(x.push(sep) + l, sep) == split_text(x, sep).push(l),
    decreases l.len(),
{
    let t = x.push(sep) + l;
    if l.len() == 0 {
        assert(t =~= x.push(sep));
        assert(t.drop_last() =~= x);
        assert(t.last() == sep);
        assert(l =~= Seq::<char>::empty());
        assert(split_text(t, sep) =~= split_text(x, sep).push(l));
    } else {
        assert(!l.drop_last().contains(sep)) by {
            if l.drop_last().contains(sep) {
                let j = choose|j: int| 0 <= j < l.drop_last().len() && l.drop_last()[j] == sep;
                assert(l[j] == sep);
            }
        }
        lemma_split_append(x, l.drop_last(), sep);
        assert(t.drop_last() =~= x.push(sep) + l.drop_last());
        assert(t.last() == l[l.len() - 1]);
        assert(l.drop_last().push(l.last()) =~= l);
        assert(split_text(t, sep) =~= split_text(x, sep).push(l));
    }
}

/// A date token of three components `a-b-c` becomes `c-b-a`.
pub proof fn law_date_three_components(a: Seq<char>, b: Seq<char>, c: Seq<char>)
    requires
        !a.contains('-'),
        !b.contains('-'),
        !c.contains('-'),
    ensures
        date_text(a.push('-') + b.push('-') + c) == c.push('-') + b.push('-') + a,
{
    let ab = a.push('-') + b;
    lemma_split_single(a, '-');
    lemma_split_append(a, b, '-');
    lemma_split_append(ab, c, '-');
    assert(a.push('-') + b.push('-') + c =~= ab.push('-') + c);
    let parts = seq![a, b, c];
    assert(split_text(ab.push('-') + c, '-') =~= parts);
    let rev = parts.reverse();
    assert(rev =~= seq![c, b, a]);
    assert(rev.drop_last() =~= seq![c, b]);
    assert(rev.drop_last().drop_last() =~= seq![c]);
    assert(join_text(seq![c], '-') == c);
    assert(join_text(seq![c, b], '-') =~= c.push('-') + b);
    assert(join_text(rev, '-') =~= c.push('-') + b.push('-') + a);
}

/// Rewriting an amount that has a decimal comma a second time changes it
/// again: the rewrite is not idempotent.
pub proof fn law_amount_twice_differs(t: Seq<char>)
    requires
        t.contains(','),
    ensures
        amount_text(amount_text(t)) != amount_text(t),
{
    let keep = |c: char| c != '.';
    let swap = |c: char| if c == ',' { '.' } else { c };
    let once = amount_text(t);
    let i = choose|i: int| 0 <= i < t.len() && t[i] == ',';
    t.lemma_filter_contains(keep, i);
    let f = t.filter(keep);
    let j = choose|j: int| 0 <= j < f.len() && f[j] == ',';
    assert(once[j] == '.');
    let g = once.filter(keep);
    assert forall|k: int| 0 <= k < g.len() implies g[k] != ',' && g[k] != '.' by {
        once.lemma_filter_pred(keep, k);
        once.lemma_filter_contains_rev(keep, g[k]);
        let m = choose|m: int| 0 <= m < once.len() && once[m] == g[k];
        assert(once[m] == swap(f[m]));
    }
    let twice = amount_text(once);
    assert(forall|k: int| 0 <= k < twice.len() ==> twice[k] == swap(g[k]));
    if twice == once {
        assert(twice[j] == swap(g[j]));
    }
}

/// Rewriting a three-component date a second time gives back the original
/// token, which differs from the rewritten one whenever the outer
/// components differ: the rewrite is not idempotent.
pub proof fn law_date_twice_restores(a: Seq<char>, b: Seq<char>, c: Seq<char>)
    requires
        !a.contains('-'),
        !b.contains('-'),
        !c.contains('-'),
        a != c,
    ensures
        date_text(date_text(a.push('-') + b.push('-') + c)) == a.push('-') + b.push('-') + c,
        date_text(date_text(a.push('-') + b.push('-') + c)) != date_text(
            a.push('-') + b.push('-') + c,
        ),
{
    let t = a.push('-') + b.push('-') + c;
    let u = c.push('-') + b.push('-') + a;
    law_date_three_components(a, b, c);
    law_date_three_components(c, b, a);
    if t == u {
        if a.len() < c.len() {
            assert(t[a.len() as int] == '-');
            assert(u[a.len() as int] == c[a.len() as int]);
        } else if c.len() < a.len() {
            assert(u[c.len() as int] == '-');
            assert(t[c.len() as int] == a[c.len() as int]);
        } else {
            assert forall|k: int| 0 <= k < a.len() implies a[k] == c[k] by {
                assert(t[k] == a[k]);
                assert(u[k] == c[k]);
            }
            assert(a =~= c);
        }
    }
}

} // verus!
