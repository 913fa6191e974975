//! Process filtering: whether the current process should be instrumented.
//!
//! The checks work on the process path and command line handed in as plain
//! strings.  Known build and deployment tools are excluded: the `dotnet`
//! CLI's own commands, MSBuild invocations, deployment engines, and one
//! system service that breaks when instrumented.  Case folding and
//! whitespace splitting are ASCII-based.

use vstd::prelude::*;

use crate::strutil::chars_of;

verus! {

/// ASCII lowercase image of one character.
pub open spec fn lower_char(c: char) -> char {
    if 0x41 <= c as u32 <= 0x5A {
        ((c as u32) + 0x20) as char
    } else {
        c
    }
}

/// ASCII uppercase image of one character.
pub open spec fn upper_char(c: char) -> char {
    if 0x61 <= c as u32 <= 0x7A {
        ((c as u32) - 0x20) as char
    } else {
        c
    }
}

/// ASCII lowercase image of a character sequence.
pub open spec fn lower(s: Seq<char>) -> Seq<char> {
    s.map_values(|c: char| lower_char(c))
}

/// ASCII uppercase image of a character sequence.
pub open spec fn upper(s: Seq<char>) -> Seq<char> {
    s.map_values(|c: char| upper_char(c))
}

/// True when `sub` occurs contiguously inside `s`.
pub open spec fn has_substring(s: Seq<char>, sub: Seq<char>) -> bool {
    exists|k: int| 0 <= k && k + sub.len() <= s.len() && #[trigger] s.subrange(k, k + sub.len())
        == sub
}

/// True when `s` ends with `suffix`.
pub open spec fn has_suffix(s: Seq<char>, suffix: Seq<char>) -> bool {
    suffix.len() <= s.len() && s.subrange(s.len() - suffix.len(), s.len() as int) == suffix
}

/// ASCII whitespace, the token separator of a command line.
pub open spec fn is_ws(c: char) -> bool {
    c == ' ' || c == '\t' || c == '\n' || c == '\r' || c as u32 == 0x0B || c as u32 == 0x0C
}

/// Where the token starting at `i` ends: the first whitespace position at
/// or after `i`, or the sequence's end.
pub open spec fn token_end(s: Seq<char>, i: int) -> int
    decreases s.len() - i,
{
    if i < 0 || i >= s.len() || is_ws(s[i]) {
        i
    } else {
        token_end(s, i + 1)
    }
}

/// The whitespace-separated tokens of `s` from position `i` on.
pub open spec fn tokens_from(s: Seq<char>, i: int) -> Seq<Seq<char>>
    decreases s.len() - i,
{
    if i < 0 || i >= s.len() {
        Seq::empty()
    } else if is_ws(s[i]) {
        tokens_from(s, i + 1)
    } else {
        let e0 = token_end(s, i);
        let e = if i < e0 <= s.len() {
            e0
        } else {
            i + 1
        };
        seq![s.subrange(i, e)] + tokens_from(s, e)
    }
}

/// `s` with every leading `c` removed.
pub open spec fn trim_leading(s: Seq<char>, c: char) -> Seq<char>
    decreases s.len(),
{
    if s.len() > 0 && s[0] == c {
        trim_leading(s.skip(1), c)
    } else {
        s
    }
}

/// `s` with every trailing `c` removed.
pub open spec fn trim_trailing(s: Seq<char>, c: char) -> Seq<char>
    decreases s.len(),
{
    if s.len() > 0 && s.last() == c {
        trim_trailing(s.drop_last(), c)
    } else {
        s
    }
}

/// `s` with every leading and trailing `c` removed.
pub open spec fn trim_both(s: Seq<char>, c: char) -> Seq<char> {
    trim_trailing(trim_leading(s, c), c)
}

/// True when a command-line token names the `dotnet` driver: lowered and
/// stripped of surrounding quotes, it ends in `dotnet` or `dotnet.exe`.
pub open spec fn is_dotnet_token(t: Seq<char>) -> bool {
    let clean = trim_both(trim_both(lower(t), '"'), '\'');
    has_suffix(clean, "dotnet"@) || has_suffix(clean, "dotnet.exe"@)
}

/// True when a token is one of the `dotnet` CLI commands that must not be
/// instrumented.
pub open spec fn is_cli_command_token(t: Seq<char>) -> bool {
    let l = lower(t);
    l == "run"@ || l == "publish"@ || l == "restore"@ || l == "new"@
}

/// The CLI-command walk over a token list: at the first `dotnet` token,
/// true exactly when a CLI command follows it; with no `dotnet` token,
/// false.
pub open spec fn dotnet_cli_in(toks: Seq<Seq<char>>) -> bool
    decreases toks.len(),
{
    if toks.len() == 0 {
        false
    } else if is_dotnet_token(toks[0]) {
        toks.len() >= 2 && is_cli_command_token(toks[1])
    } else {
        dotnet_cli_in(toks.skip(1))
    }
}

/// True exactly when the command line is a `dotnet run`, `publish`,
/// `restore` or `new` invocation (the command right after the first token
/// naming the `dotnet` driver).
pub fn is_dotnet_cli_command(command_line: &str) -> (r: bool)
    ensures
        r == dotnet_cli_in(tokens_from(command_line@, 0)),
{
    let chars = chars_of(command_line);
    let toks = split_ws(&chars);
    let n = toks.len();
    let ghost spec_toks = tokens_from(command_line@, 0);

    let mut i: usize = 0;
    proof {
        assert(spec_toks.skip(0) =~= spec_toks);
    }
    while i < n
        invariant
            0 <= i <= n,
            spec_toks == tokens_from(command_line@, 0),
            n == spec_toks.len(),
            n == toks@.len(),
            forall|k: int| 0 <= k < n ==> #[trigger] toks@[k]@ == spec_toks[k],
            dotnet_cli_in(spec_toks) == dotnet_cli_in(spec_toks.skip(i as int)),
            forall|k: int| 0 <= k < i ==> !is_dotnet_token(#[trigger] spec_toks[k]),
        decreases n - i,
    {
        proof {
            assert(spec_toks.skip(i as int)[0] == spec_toks[i as int]);
            assert(spec_toks.skip(i as int).skip(1) =~= spec_toks.skip(i + 1));
        }
        if token_is_dotnet(&toks[i]) {
            proof {
                assert(toks@[i as int]@ == spec_toks[i as int]);
                assert(is_dotnet_token(spec_toks.skip(i as int)[0]));
            }
            if i + 1 < n {
                let second = lower_vec(&toks[i + 1]);
                proof {
                    assert(spec_toks.skip(i as int)[1] == spec_toks[i + 1]);
                    assert(toks@[i + 1]@ == spec_toks[i + 1]);
                    assert(dotnet_cli_in(spec_toks.skip(i as int)) == (spec_toks.skip(
                        i as int,
                    ).len() >= 2 && is_cli_command_token(spec_toks.skip(i as int)[1])));
                }
                let r = vec_eq_lit(&second, "run") || vec_eq_lit(&second, "publish") || vec_eq_lit(
                    &second,
                    "restore",
                ) || vec_eq_lit(&second, "new");
                return r;
            } else {
                proof {
                    assert(spec_toks.skip(i as int).len() < 2);
                    assert(dotnet_cli_in(spec_toks.skip(i as int)) == false);
                }
                return false;
            }
        }
        i = i + 1;
    }
    proof {
        assert(spec_toks.skip(n as int) =~= Seq::<Seq<char>>::empty());
    }
    false
}

/// .NET Core filtering: excludes MSBuild invocations, the Kudu deployment
/// engine, the Azure diagnostics server, and `dotnet` CLI commands; every
/// other process is instrumented.
pub fn should_instrument_core_clr(process_path: &str, command_line: &str) -> (r: bool)
    ensures
        r == !{
            let l = lower(command_line@);
            ||| has_substring(l, "msbuild.dll"@)
            ||| has_substring(l, "kudu.services.web"@)
            ||| has_substring(l, "kuduagent.dll"@)
            ||| has_substring(l, "./diagserver"@)
            ||| dotnet_cli_in(tokens_from(command_line@, 0))
        },
{
    let chars = chars_of(command_line);
    let lowered = lower_vec(&chars);

    if contains_lit(&lowered, "msbuild.dll") {
        return false;
    }
    if contains_lit(&lowered, "kudu.services.web") || contains_lit(&lowered, "kuduagent.dll") {
        return false;
    }
    if contains_lit(&lowered, "./diagserver") {
        return false;
    }
    if is_dotnet_cli_command(command_line) {
        return false;
    }
    true
}

/// .NET Framework filtering: excludes the one known system process that
/// fails when instrumented; every other process is instrumented.
pub fn should_instrument_net_framework(process_path: &str) -> (r: bool)
    ensures
        r == !has_suffix(upper(process_path@), "SMSVCHOST.EXE"@),
{
    let chars = chars_of(process_path);
    let uppered = upper_vec(&chars);
    !ends_with_lit(&uppered, "SMSVCHOST.EXE")
}

/// Check if a process should be instrumented, given its runtime flavor,
/// executable path and command line.  Returns true to proceed with
/// profiling, false to detach.
pub fn should_instrument_process(is_core_clr: bool, process_path: &str, command_line: &str) -> (r:
    bool)
    ensures
        is_core_clr ==> r == !{
            let l = lower(command_line@);
            ||| has_substring(l, "msbuild.dll"@)
            ||| has_substring(l, "kudu.services.web"@)
            ||| has_substring(l, "kuduagent.dll"@)
            ||| has_substring(l, "./diagserver"@)
            ||| dotnet_cli_in(tokens_from(command_line@, 0))
        },
        !is_core_clr ==> r == !has_suffix(upper(process_path@), "SMSVCHOST.EXE"@),
{
    if is_core_clr {
        should_instrument_core_clr(process_path, command_line)
    } else {
        should_instrument_net_framework(process_path)
    }
}

/// ASCII whitespace test.
fn is_ws_exec(c: char) -> (r: bool)
    ensures
        r == is_ws(c),
{
    c == ' ' || c == '\t' || c == '\n' || c == '\r' || c as u32 == 0x0B || c as u32 == 0x0C
}

/// ASCII lowercase image of a character vector.
fn lower_vec(v: &Vec<char>) -> (r: Vec<char>)
    ensures
        r@ == lower(v@),
{
    broadcast use vstd::utf8::char_u32_cast, vstd::utf8::char_is_scalar;

    let mut out: Vec<char> = Vec::new();
    let mut i: usize = 0;
    while i < v.len()
        invariant
            0 <= i <= v@.len(),
            out@ == lower(v@.subrange(0, i as int)),
        decreases v@.len() - i,
    {
        let c = v[i];
        let u = c as u32;
        if 0x41 <= u && u <= 0x5A {
            let lc = match crate::strutil::char_from_u32(u + 0x20) {
                Some(x) => x,
                None => {
                    assert(false);
                    c
                },
            };
            out.push(lc);
            proof {
                vstd::utf8::char_u32_cast(lc, (u + 0x20) as u32);
            }
        } else {
            out.push(c);
        }
        i = i + 1;
        assert(out@ =~= lower(v@.subrange(0, i as int)));
    }
    assert(v@.subrange(0, v@.len() as int) =~= v@);
    assert(out@ =~= lower(v@));
    out
}

/// ASCII uppercase image of a character vector.
fn upper_vec(v: &Vec<char>) -> (r: Vec<char>)
    ensures
        r@ == upper(v@),
{
    broadcast use vstd::utf8::char_u32_cast, vstd::utf8::char_is_scalar;

    let mut out: Vec<char> = Vec::new();
    let mut i: usize = 0;
    while i < v.len()
        invariant
            0 <= i <= v@.len(),
            out@ == upper(v@.subrange(0, i as int)),
        decreases v@.len() - i,
    {
        let c = v[i];
        let u = c as u32;
        if 0x61 <= u && u <= 0x7A {
            let uc = match crate::strutil::char_from_u32(u - 0x20) {
                Some(x) => x,
                None => {
                    assert(false);
                    c
                },
            };
            out.push(uc);
            proof {
                vstd::utf8::char_u32_cast(uc, (u - 0x20) as u32);
            }
        } else {
            out.push(c);
        }
        i = i + 1;
        assert(out@ =~= upper(v@.subrange(0, i as int)));
    }
    assert(v@.subrange(0, v@.len() as int) =~= v@);
    assert(out@ =~= upper(v@));
    out
}

/// The characters of a string literal.
fn lit_chars(lit: &str) -> (r: Vec<char>)
    ensures
        r@ == lit@,
{
    chars_of(lit)
}

/// True when `sub` occurs contiguously inside `v`.
fn contains_sub(v: &Vec<char>, sub: &Vec<char>) -> (r: bool)
    ensures
        r == has_substring(v@, sub@),
{
    let m = sub.len();
    if m > v.len() {
        proof {
            if has_substring(v@, sub@) {
                let k = choose|k: int|
                    0 <= k && k + sub@.len() <= v@.len() && #[trigger] v@.subrange(
                        k,
                        k + sub@.len(),
                    ) == sub@;
                assert(k + sub@.len() <= v@.len());
            }
        }
        return false;
    }
    let n = v.len();
    let mut k: usize = 0;
    while k <= v.len() - m
        invariant
            m == sub@.len(),
            m <= v@.len(),
            n == v@.len(),
            0 <= k <= v@.len() - m + 1,
            forall|j: int| 0 <= j < k ==> #[trigger] v@.subrange(j, j + sub@.len()) != sub@,
        decreases v@.len() - m - k + 1,
    {
        let mut t: usize = 0;
        let mut matched = true;
        while t < m
            invariant
                0 <= t <= m,
                m == sub@.len(),
                n == v@.len(),
                0 <= k,
                k + m <= v@.len(),
                matched == (v@.subrange(k as int, k + t as int) =~= sub@.subrange(0, t as int)),
            decreases m - t,
        {
            let same = v[k + t] == sub[t];
            proof {
                if matched && same {
                    assert(v@.subrange(k as int, k + t + 1) =~= sub@.subrange(0, t + 1));
                } else {
                    if v@.subrange(k as int, k + t + 1) =~= sub@.subrange(0, t + 1) {
                        assert(v@.subrange(k as int, k + t + 1).subrange(0, t as int)
                            =~= v@.subrange(k as int, k + t as int));
                        assert(sub@.subrange(0, t + 1).subrange(0, t as int) =~= sub@.subrange(
                            0,
                            t as int,
                        ));
                        assert(v@.subrange(k as int, k + t + 1)[t as int] == v@[k + t]);
                        assert(sub@.subrange(0, t + 1)[t as int] == sub@[t as int]);
                        assert(false);
                    }
                }
            }
            matched = matched && same;
            t = t + 1;
        }
        if matched {
            proof {
                assert(sub@.subrange(0, sub@.len() as int) =~= sub@);
                assert(v@.subrange(k as int, k + sub@.len()) == sub@);
            }
            return true;
        }
        proof {
            assert(sub@.subrange(0, m as int) =~= sub@);
        }
        k = k + 1;
    }
    proof {
        if has_substring(v@, sub@) {
            let j = choose|j: int|
                0 <= j && j + sub@.len() <= v@.len() && #[trigger] v@.subrange(j, j + sub@.len())
                    == sub@;
            assert(v@.subrange(j, j + sub@.len()) != sub@);
        }
    }
    false
}

/// True when the literal occurs contiguously inside `v`.
fn contains_lit(v: &Vec<char>, lit: &str) -> (r: bool)
    ensures
        r == has_substring(v@, lit@),
{
    let sub = lit_chars(lit);
    contains_sub(v, &sub)
}

/// True when `v` ends with the literal.
fn ends_with_lit(v: &Vec<char>, lit: &str) -> (r: bool)
    ensures
        r == has_suffix(v@, lit@),
{
    let sub = lit_chars(lit);
    let m = sub.len();
    if m > v.len() {
        return false;
    }
    let n = v.len();
    let start = v.len() - m;
    let mut t: usize = 0;
    while t < m
        invariant
            0 <= t <= m,
            m == sub@.len(),
            m <= v@.len(),
            n == v@.len(),
            start == v@.len() - m,
            sub@ == lit@,
            v@.subrange(start as int, start + t as int) =~= sub@.subrange(0, t as int),
        decreases m - t,
    {
        if v[start + t] != sub[t] {
            proof {
                if has_suffix(v@, lit@) {
                    assert(v@.subrange(start as int, v@.len() as int)[t as int] == v@[start + t]);
                }
            }
            return false;
        }
        proof {
            assert(v@.subrange(start as int, start + t + 1) =~= sub@.subrange(0, t + 1));
        }
        t = t + 1;
    }
    proof {
        assert(sub@.subrange(0, m as int) =~= sub@);
        assert(v@.subrange(start as int, v@.len() as int) =~= v@.subrange(
            start as int,
            start + m as int,
        ));
    }
    true
}

/// True when `v` equals the literal.
fn vec_eq_lit(v: &Vec<char>, lit: &str) -> (r: bool)
    ensures
        r == (v@ == lit@),
{
    let sub = lit_chars(lit);
    if v.len() != sub.len() {
        return false;
    }
    let mut t: usize = 0;
    while t < v.len()
        invariant
            0 <= t <= v@.len(),
            v@.len() == sub@.len(),
            sub@ == lit@,
            forall|j: int| 0 <= j < t ==> v@[j] == sub@[j],
        decreases v@.len() - t,
    {
        if v[t] != sub[t] {
            return false;
        }
        t = t + 1;
    }
    proof {
        assert(v@ =~= lit@);
    }
    true
}

/// `i <= token_end(s, i) <= s.len()`, strictly greater on a non-whitespace
/// start.
proof fn lemma_token_end(s: Seq<char>, i: int)
    requires
        0 <= i <= s.len(),
    ensures
        i <= token_end(s, i) <= s.len(),
        i < s.len() && !is_ws(s[i]) ==> token_end(s, i) >= i + 1,
        token_end(s, i) < s.len() ==> is_ws(s[token_end(s, i)]),
        forall|m: int| i <= m < token_end(s, i) ==> !is_ws(#[trigger] s[m]),
    decreases s.len() - i,
{
    if i < s.len() && !is_ws(s[i]) {
        lemma_token_end(s, i + 1);
    }
}

/// Split a character vector into its whitespace-separated tokens.
fn split_ws(v: &Vec<char>) -> (r: Vec<Vec<char>>)
    ensures
        r@.len() == tokens_from(v@, 0).len(),
        forall|k: int|
            0 <= k < r@.len() ==> #[trigger] r@[k]@ == tokens_from(v@, 0)[k],
{
    let mut out: Vec<Vec<char>> = Vec::new();
    let mut i: usize = 0;
    while i < v.len()
        invariant
            0 <= i <= v@.len(),
            forall|k: int|
                0 <= k < out@.len() ==> tokens_from(v@, 0).len() > k && #[trigger] out@[k]@
                    == tokens_from(v@, 0)[k],
            tokens_from(v@, 0) =~= out@.map_values(|t: Vec<char>| t@) + tokens_from(v@, i as int),
        decreases v@.len() - i,
    {
        if is_ws_exec(v[i]) {
            i = i + 1;
            proof {
                assert(tokens_from(v@, i - 1) == tokens_from(v@, i as int));
            }
        } else {
            proof {
                lemma_token_end(v@, i as int);
            }
            let mut e: usize = i;
            while e < v.len() && !is_ws_exec(v[e])
                invariant
                    i <= e <= v@.len(),
                    token_end(v@, i as int) == token_end(v@, e as int),
                decreases v@.len() - e,
            {
                e = e + 1;
            }
            proof {
                assert(token_end(v@, e as int) == e);
            }
            let mut tok: Vec<char> = Vec::new();
            let mut t: usize = i;
            while t < e
                invariant
                    i <= t <= e,
                    e <= v@.len(),
                    tok@ == v@.subrange(i as int, t as int),
                decreases e - t,
            {
                tok.push(v[t]);
                t = t + 1;
                assert(tok@ =~= v@.subrange(i as int, t as int));
            }
            let ghost old_out = out@;
            out.push(tok);
            proof {
                let all = tokens_from(v@, 0);
                assert(tokens_from(v@, i as int) == seq![v@.subrange(i as int, e as int)]
                    + tokens_from(v@, e as int));
                assert(out@.map_values(|t: Vec<char>| t@) =~= old_out.map_values(
                    |t: Vec<char>| t@,
                ).push(v@.subrange(i as int, e as int)));
                assert(all =~= out@.map_values(|t: Vec<char>| t@) + tokens_from(v@, e as int));
                assert forall|k: int| 0 <= k < out@.len() implies all.len() > k
                    && #[trigger] out@[k]@ == all[k] by {
                    assert(out@.map_values(|t: Vec<char>| t@)[k] == out@[k]@);
                }
            }
            i = e;
        }
    }
    proof {
        assert(tokens_from(v@, v@.len() as int) =~= Seq::<Seq<char>>::empty());
        let all = tokens_from(v@, 0);
        assert(all =~= out@.map_values(|t: Vec<char>| t@));
        assert(out@.len() == all.len());
        assert forall|k: int| 0 <= k < out@.len() implies #[trigger] out@[k]@ == all[k] by {
            assert(out@.map_values(|t: Vec<char>| t@)[k] == out@[k]@);
        }
    }
    out
}

/// True when the token names the `dotnet` driver, per [`is_dotnet_token`].
fn token_is_dotnet(tok: &Vec<char>) -> (r: bool)
    ensures
        r == is_dotnet_token(tok@),
{
    let lowered = lower_vec(tok);
    let dq = trim_both_exec(&lowered, '"');
    let clean = trim_both_exec(&dq, '\'');
    ends_with_lit(&clean, "dotnet") || ends_with_lit(&clean, "dotnet.exe")
}

/// `v` with every leading and trailing `c` removed.
fn trim_both_exec(v: &Vec<char>, c: char) -> (r: Vec<char>)
    ensures
        r@ == trim_both(v@, c),
{
    let mut lo: usize = 0;
    assert(v@.skip(0) =~= v@);
    while lo < v.len() && v[lo] == c
        invariant
            0 <= lo <= v@.len(),
            trim_leading(v@, c) == trim_leading(v@.skip(lo as int), c),
        decreases v@.len() - lo,
    {
        proof {
            assert(v@.skip(lo as int)[0] == v@[lo as int]);
            assert(v@.skip(lo as int).skip(1) =~= v@.skip(lo + 1));
        }
        lo = lo + 1;
    }
    proof {
        if lo < v@.len() {
            assert(v@.skip(lo as int)[0] == v@[lo as int]);
        }
        assert(trim_leading(v@, c) == v@.skip(lo as int));
    }

    let mut hi: usize = v.len();
    while hi > lo && v[hi - 1] == c
        invariant
            lo <= hi <= v@.len(),
            trim_leading(v@, c) == v@.skip(lo as int),
            trim_trailing(v@.skip(lo as int), c) == trim_trailing(
                v@.subrange(lo as int, hi as int),
                c,
            ),
        decreases hi,
    {
        proof {
            let cur = v@.subrange(lo as int, hi as int);
            assert(cur.last() == v@[hi - 1]);
            assert(cur.drop_last() =~= v@.subrange(lo as int, hi - 1));
        }
        hi = hi - 1;
    }
    proof {
        let cur = v@.subrange(lo as int, hi as int);
        if hi > lo {
            assert(cur.last() == v@[hi - 1]);
        }
        assert(trim_trailing(cur, c) == cur);
        assert(v@.skip(lo as int) =~= v@.subrange(lo as int, v@.len() as int));
    }

    let mut out: Vec<char> = Vec::new();
    let mut t: usize = lo;
    while t < hi
        invariant
            lo <= t <= hi,
            hi <= v@.len(),
            out@ == v@.subrange(lo as int, t as int),
        decreases hi - t,
    {
        out.push(v[t]);
        t = t + 1;
        assert(out@ =~= v@.subrange(lo as int, t as int));
    }
    assert(out@ =~= trim_both(v@, c));
    out
}

} // verus!
