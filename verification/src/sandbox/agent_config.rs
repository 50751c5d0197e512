//! Agent auth setup: the environment read from the sandbox, and the
//! `profile.d` script that exports the variables interactive shells need.
use vstd::prelude::*;
use vstd::string::StringExecFns;

use crate::text::str_eq;
use crate::text::{
    append_range, append_str, chars_of, has_prefix, slices_of, split_on, split_ranges,
    starts_with, string_from_chars, trim_bounds, trim_spaces,
};

verus! {

/// `v` with every `'` written as `'\''`, for use inside single quotes.
pub open spec fn shell_escape(v: Seq<char>) -> Seq<char>
    decreases v.len(),
{
    if v.len() == 0 {
        Seq::empty()
    } else {
        shell_escape(v.drop_last()) + if v.last() == '\'' {
            seq!['\'', '\\', '\'', '\'']
        } else {
            seq![v.last()]
        }
    }
}

/// The line `export K='V'` (with `V` escaped) and its newline.
pub open spec fn export_line(k: Seq<char>, v: Seq<char>) -> Seq<char> {
    "export "@ + k + "='"@ + shell_escape(v) + "'\n"@
}

fn push_escaped(out: &mut Vec<char>, v: &Vec<char>)
    ensures
        final(out)@ == old(out)@ + shell_escape(v@),
{
    let ghost start = out@;
    let mut i: usize = 0;
    while i < v.len()
        invariant
            0 <= i <= v@.len(),
            out@ == start + shell_escape(v@.take(i as int)),
        decreases v@.len() - i,
    {
        let c = v[i];
        if c == '\'' {
            out.push('\'');
            out.push('\\');
            out.push('\'');
            out.push('\'');
        } else {
            out.push(c);
        }
        proof {
            assert(v@.take(i + 1).drop_last() =~= v@.take(i as int));
            assert(v@.take(i + 1).last() == c);
        }
        i += 1;
    }
    proof {
        assert(v@.take(v@.len() as int) =~= v@);
    }
}

/// Appends `export K='V'` (single quotes in `V` escaped) and a newline.
pub fn write_export(lines: &mut String, k: &str, v: &str)
    ensures
        final(lines)@ == old(lines)@ + export_line(k@, v@),
{
    let mut out: Vec<char> = Vec::new();
    append_str(&mut out, "export ");
    append_str(&mut out, k);
    append_str(&mut out, "='");
    let vc = chars_of(v);
    push_escaped(&mut out, &vc);
    append_str(&mut out, "'\n");
    let s = string_from_chars(&out);
    lines.append(s.as_str());
}

/// `l` without one trailing `'\r'`.
pub open spec fn strip_cr(l: Seq<char>) -> Seq<char> {
    if l.len() > 0 && l.last() == '\r' {
        l.drop_last()
    } else {
        l
    }
}

/// The lines of `s` as `str::lines` gives them: split at `'\n'`, without a
/// last empty piece after a final newline, each without a trailing `'\r'`.
pub open spec fn text_lines(s: Seq<char>) -> Seq<Seq<char>> {
    let pieces = split_on(s, '\n');
    let kept = if s.len() > 0 && s.last() == '\n' {
        pieces.drop_last()
    } else if s.len() == 0 {
        Seq::empty()
    } else {
        pieces
    };
    kept.map_values(|l: Seq<char>| strip_cr(l))
}

/// A `KEY=VALUE` line split at its first `=`.
pub open spec fn env_pair(l: Seq<char>) -> Option<(Seq<char>, Seq<char>)> {
    let i = crate::text::first_index(l, '=');
    if i < l.len() {
        Some((l.take(i), l.skip(i + 1)))
    } else {
        None
    }
}

/// The `KEY=VALUE` pairs among `ls`, in order.
pub open spec fn env_pairs(ls: Seq<Seq<char>>) -> Seq<(Seq<char>, Seq<char>)>
    decreases ls.len(),
{
    if ls.len() == 0 {
        Seq::empty()
    } else {
        env_pairs(ls.drop_last()) + match env_pair(ls.last()) {
            Some(p) => seq![p],
            None => Seq::empty(),
        }
    }
}

pub open spec fn pairs_view(v: Seq<(String, String)>) -> Seq<(Seq<char>, Seq<char>)> {
    v.map_values(|p: (String, String)| (p.0@, p.1@))
}

/// The `KEY=VALUE` pairs of `printenv` output, in order of the lines.
pub fn parse_env_output(stdout: &str) -> (r: Vec<(String, String)>)
    ensures
        pairs_view(r@) == env_pairs(text_lines(stdout@)),
{
    let chars = chars_of(stdout);
    let ranges = split_ranges(&chars, '\n');
    let ghost pieces = split_on(stdout@, '\n');
    let n = chars.len();
    let count = if n > 0 && chars[n - 1] == '\n' {
        ranges.len() - 1
    } else if n == 0 {
        0
    } else {
        ranges.len()
    };
    let ghost kept = if n > 0 && stdout@.last() == '\n' {
        pieces.drop_last()
    } else if n == 0 {
        Seq::<Seq<char>>::empty()
    } else {
        pieces
    };
    let ghost ls = text_lines(stdout@);
    proof {
        assert(kept.len() == count);
        assert(ls == kept.map_values(|l: Seq<char>| strip_cr(l)));
    }
    let mut out: Vec<(String, String)> = Vec::new();
    let mut i: usize = 0;
    while i < count
        invariant
            0 <= i <= count,
            count <= ranges@.len(),
            kept.len() == count,
            forall|k: int| 0 <= k < count ==> kept[k] == pieces[k],
            pieces == slices_of(chars@, ranges@),
            forall|k: int| 0 <= k < ranges@.len() ==> (#[trigger] ranges@[k]).0 <= ranges@[k].1 <= chars@.len(),
            ls == kept.map_values(|l: Seq<char>| strip_cr(l)),
            pairs_view(out@) == env_pairs(ls.take(i as int)),
        decreases count - i,
    {
        let (from, to0) = ranges[i];
        let to = if to0 > from && chars[to0 - 1] == '\r' {
            to0 - 1
        } else {
            to0
        };
        let ghost line = chars@.subrange(from as int, to as int);
        proof {
            let piece = chars@.subrange(from as int, to0 as int);
            assert(pieces[i as int] == piece);
            if to0 > from && chars@[to0 - 1] == '\r' {
                assert(piece.drop_last() =~= line);
            }
            assert(ls[i as int] == line);
            assert(ls.take(i + 1).drop_last() =~= ls.take(i as int));
        }
        let mut eq: usize = from;
        while eq < to && chars[eq] != '='
            invariant
                from <= eq <= to <= chars@.len(),
                forall|j: int| from <= j < eq ==> chars@[j] != '=',
            decreases to - eq,
        {
            eq += 1;
        }
        proof {
            lemma_first_index_in(line, '=', eq - from);
        }
        if eq < to {
            let mut key: Vec<char> = Vec::new();
            append_range(&mut key, &chars, from, eq);
            let mut value: Vec<char> = Vec::new();
            append_range(&mut value, &chars, eq + 1, to);
            proof {
                assert(key@ =~= line.take(eq - from));
                assert(value@ =~= line.skip(eq - from + 1));
            }
            out.push((string_from_chars(&key), string_from_chars(&value)));
        }
        proof {
            assert(pairs_view(out@) =~= env_pairs(ls.take(i + 1)));
        }
        i += 1;
    }
    proof {
        assert(ls.take(count as int) =~= ls);
    }
    out
}

proof fn lemma_first_index_in(s: Seq<char>, c: char, k: int)
    requires
        0 <= k <= s.len(),
        forall|j: int| 0 <= j < k ==> s[j] != c,
        k == s.len() || s[k] == c,
    ensures
        crate::text::first_index(s, c) == k,
    decreases k,
{
    if k > 0 {
        lemma_first_index_in(s.drop_first(), c, k - 1);
    }
}

/// The command output is `yes` once surrounding whitespace is trimmed.
pub fn is_yes(stdout: &str) -> (r: bool)
    ensures
        r == (trim_spaces(stdout@) == "yes"@),
{
    let chars = chars_of(stdout);
    let (from, to) = trim_bounds(&chars);
    let mut t: Vec<char> = Vec::new();
    append_range(&mut t, &chars, from, to);
    let yes = chars_of("yes");
    let r = starts_with(&t, &yes) && t.len() == yes.len();
    proof {
        if r {
            assert(t@ =~= t@.take(yes@.len() as int));
        }
        if t@ == yes@ {
            assert(t@.take(yes@.len() as int) =~= t@);
        }
    }
    r
}

/// The exports of the gateway variables, skipping the internal
/// `_GATEWAY_*` ones.
pub open spec fn gateway_exports(env: Seq<(Seq<char>, Seq<char>)>) -> Seq<char>
    decreases env.len(),
{
    if env.len() == 0 {
        Seq::empty()
    } else {
        gateway_exports(env.drop_last()) + if has_prefix(env.last().0, "_GATEWAY_"@) {
            Seq::empty()
        } else {
            export_line(env.last().0, env.last().1)
        }
    }
}

/// The `profile.d` script: the proxy CA exports when the sandbox has the
/// proxy's certificate, then the gateway variables in the order given.
pub open spec fn profile_script_text(has_proxy_ca: bool, env: Seq<(Seq<char>, Seq<char>)>) -> Seq<char> {
    (if has_proxy_ca {
        export_line("NODE_EXTRA_CA_CERTS"@, "/usr/local/share/ca-certificates/shuru-proxy.crt"@)
            + export_line("SSL_CERT_FILE"@, "/etc/ssl/certs/ca-certificates.crt"@)
    } else {
        Seq::empty()
    }) + gateway_exports(env)
}

/// Builds the `profile.d` script for interactive shells. The gateway
/// variables form a map: no name occurs twice.
pub fn profile_script(has_proxy_ca: bool, gateway_env: &Vec<(String, String)>) -> (r: String)
    requires
        distinct_keys(pairs_view(gateway_env@)),
    ensures
        r@ == profile_script_text(has_proxy_ca, pairs_view(gateway_env@)),
{
    let mut lines = String::new();
    if has_proxy_ca {
        write_export(&mut lines, "NODE_EXTRA_CA_CERTS", "/usr/local/share/ca-certificates/shuru-proxy.crt");
        write_export(&mut lines, "SSL_CERT_FILE", "/etc/ssl/certs/ca-certificates.crt");
    }
    let ghost head = lines@;
    let ghost env = pairs_view(gateway_env@);
    let skip = chars_of("_GATEWAY_");
    let mut i: usize = 0;
    while i < gateway_env.len()
        invariant
            0 <= i <= gateway_env@.len(),
            env == pairs_view(gateway_env@),
            skip@ == "_GATEWAY_"@,
            lines@ == head + gateway_exports(env.take(i as int)),
        decreases gateway_env@.len() - i,
    {
        let (k, v) = &gateway_env[i];
        let kc = chars_of(k.as_str());
        proof {
            assert(env.take(i + 1).drop_last() =~= env.take(i as int));
            assert(env.take(i + 1).last() == (k@, v@));
        }
        if !starts_with(&kc, &skip) {
            write_export(&mut lines, k.as_str(), v.as_str());
        }
        i += 1;
    }
    proof {
        assert(env.take(env.len() as int) =~= env);
    }
    lines
}

/// No variable name occurs twice.
pub open spec fn distinct_keys(ps: Seq<(Seq<char>, Seq<char>)>) -> bool {
    forall|i: int, j: int| 0 <= i < j < ps.len() ==> #[trigger] ps[i].0 != #[trigger] ps[j].0
}

/// The environment that setting the variables in order gives: a later
/// value of a name replaces an earlier one.
pub open spec fn env_map(ps: Seq<(Seq<char>, Seq<char>)>) -> Map<Seq<char>, Seq<char>>
    decreases ps.len(),
{
    if ps.len() == 0 {
        Map::empty()
    } else {
        env_map(ps.drop_last()).insert(ps.last().0, ps.last().1)
    }
}

/// With distinct names, the environment holds exactly the listed names,
/// each with its listed value.
proof fn lemma_env_map_distinct(ps: Seq<(Seq<char>, Seq<char>)>)
    requires
        distinct_keys(ps),
    ensures
        forall|k: Seq<char>| #[trigger] env_map(ps).dom().contains(k) <==> exists|i: int| 0 <= i < ps.len() && ps[i].0 == k,
        forall|i: int| 0 <= i < ps.len() ==> #[trigger] env_map(ps)[ps[i].0] == ps[i].1,
    decreases ps.len(),
{
    if ps.len() > 0 {
        let t = ps.drop_last();
        assert(distinct_keys(t)) by {
            assert forall|i: int, j: int| 0 <= i < j < t.len() implies #[trigger] t[i].0 != #[trigger] t[j].0 by {
                assert(t[i] == ps[i] && t[j] == ps[j]);
            }
        }
        lemma_env_map_distinct(t);
        let m = env_map(ps);
        assert forall|k: Seq<char>| #[trigger] m.dom().contains(k) <==> exists|i: int| 0 <= i < ps.len() && ps[i].0 == k by {
            if m.dom().contains(k) && k != ps.last().0 {
                assert(env_map(t).dom().contains(k));
                let i = choose|i: int| 0 <= i < t.len() && t[i].0 == k;
                assert(ps[i].0 == k);
            }
            if k == ps.last().0 {
                assert(ps[ps.len() - 1].0 == k);
            }
            if exists|i: int| 0 <= i < ps.len() && ps[i].0 == k {
                let i = choose|i: int| 0 <= i < ps.len() && ps[i].0 == k;
                if i < t.len() {
                    assert(t[i].0 == k);
                }
            }
        }
        assert forall|i: int| 0 <= i < ps.len() implies #[trigger] m[ps[i].0] == ps[i].1 by {
            if i < t.len() {
                assert(t[i] == ps[i]);
                assert(ps[i].0 != ps[ps.len() - 1].0);
            }
        }
    }
}

/// Sets one variable in an environment of distinct names: replaces the
/// value of `k` where it is listed, else adds it at the end.
fn set_var(out: &mut Vec<(String, String)>, k: &String, v: &String)
    requires
        distinct_keys(pairs_view(old(out)@)),
    ensures
        distinct_keys(pairs_view(final(out)@)),
        env_map(pairs_view(final(out)@)) == env_map(pairs_view(old(out)@)).insert(k@, v@),
{
    let ghost before = pairs_view(out@);
    let mut j: usize = 0;
    while j < out.len()
        invariant
            j <= out@.len(),
            before == pairs_view(out@),
            forall|q: int| 0 <= q < j ==> before[q].0 != k@,
        ensures
            j <= out@.len(),
            before == pairs_view(out@),
            forall|q: int| 0 <= q < j ==> before[q].0 != k@,
            j < out@.len() ==> before[j as int].0 == k@,
        decreases out@.len() - j,
    {
        if str_eq(out[j].0.as_str(), k.as_str()) {
            break;
        }
        j += 1;
    }
    proof {
        lemma_env_map_distinct(before);
    }
    if j < out.len() {
        proof {
            assert(before[j as int].0 == k@);
        }
        out.set(j, (k.clone(), v.clone()));
        let ghost after = pairs_view(out@);
        proof {
            assert(after =~= before.update(j as int, (k@, v@)));
            assert(distinct_keys(after)) by {
                assert forall|a: int, b: int| 0 <= a < b < after.len() implies #[trigger] after[a].0 != #[trigger] after[b].0 by {
                    assert(before[a].0 != before[b].0);
                }
            }
            lemma_env_map_distinct(after);
            let m = env_map(before).insert(k@, v@);
            assert forall|key: Seq<char>| #[trigger] env_map(after).dom().contains(key) <==> m.dom().contains(key) by {
                if m.dom().contains(key) {
                    if key != k@ {
                        let i = choose|i: int| 0 <= i < before.len() && before[i].0 == key;
                        assert(after[i].0 == key);
                    } else {
                        assert(after[j as int].0 == key);
                    }
                }
                if env_map(after).dom().contains(key) {
                    let i = choose|i: int| 0 <= i < after.len() && after[i].0 == key;
                    if i != j {
                        assert(before[i].0 == key);
                    }
                }
            }
            assert forall|key: Seq<char>| #[trigger] env_map(after).dom().contains(key) implies env_map(after)[key] == m[key] by {
                let i = choose|i: int| 0 <= i < after.len() && after[i].0 == key;
                assert(env_map(after)[after[i].0] == after[i].1);
                if i != j {
                    assert(before[i] == after[i]);
                    assert(env_map(before)[before[i].0] == before[i].1);
                }
            }
            assert(env_map(after) =~= m);
        }
    } else {
        let ghost prev = out@;
        out.push((k.clone(), v.clone()));
        proof {
            let after = pairs_view(out@);
            assert(after =~= before.push((k@, v@)));
            assert(after.drop_last() =~= before);
            assert(distinct_keys(after)) by {
                assert forall|a: int, b: int| 0 <= a < b < after.len() implies #[trigger] after[a].0 != #[trigger] after[b].0 by {
                    if b == after.len() - 1 {
                        assert(before[a].0 != k@);
                    } else {
                        assert(before[a].0 != before[b].0);
                    }
                }
            }
        }
    }
}

/// The variables an agent's auth setup sees: the sandbox's environment
/// (as `printenv` listed it) with the gateway's variables on top, each
/// name once, a later value replacing an earlier one.
pub fn merge_env(sandbox_env: &Vec<(String, String)>, gateway_env: &Vec<(String, String)>) -> (r: Vec<(String, String)>)
    ensures
        distinct_keys(pairs_view(r@)),
        env_map(pairs_view(r@)) == env_map(pairs_view(sandbox_env@) + pairs_view(gateway_env@)),
{
    let ghost all = pairs_view(sandbox_env@) + pairs_view(gateway_env@);
    let n1 = sandbox_env.len();
    let n2 = gateway_env.len();
    let mut out: Vec<(String, String)> = Vec::new();
    proof {
        assert(all.take(0) =~= Seq::<(Seq<char>, Seq<char>)>::empty());
        assert(pairs_view(out@) =~= Seq::<(Seq<char>, Seq<char>)>::empty());
    }
    let mut i: usize = 0;
    while i < n1
        invariant
            i <= n1,
            n1 == sandbox_env@.len(),
            all == pairs_view(sandbox_env@) + pairs_view(gateway_env@),
            distinct_keys(pairs_view(out@)),
            env_map(pairs_view(out@)) == env_map(all.take(i as int)),
        decreases n1 - i,
    {
        let (k, v) = &sandbox_env[i];
        set_var(&mut out, k, v);
        proof {
            assert(all.take(i + 1).drop_last() =~= all.take(i as int));
            assert(all.take(i + 1).last() == (k@, v@));
        }
        i += 1;
    }
    let mut j: usize = 0;
    while j < n2
        invariant
            j <= n2,
            n1 == sandbox_env@.len(),
            n2 == gateway_env@.len(),
            all == pairs_view(sandbox_env@) + pairs_view(gateway_env@),
            distinct_keys(pairs_view(out@)),
            env_map(pairs_view(out@)) == env_map(all.take(n1 + j)),
        decreases n2 - j,
    {
        let (k, v) = &gateway_env[j];
        set_var(&mut out, k, v);
        proof {
            assert(all.take(n1 + j + 1).drop_last() =~= all.take(n1 + j));
            assert(all.take(n1 + j + 1).last() == (k@, v@));
        }
        j += 1;
    }
    proof {
        assert(all.take(n1 + n2) =~= all);
    }
    out
}

} // verus!
