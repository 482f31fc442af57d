//! The canonical Linux command line of bzImage boots: a forced baseline
//! plus a whitelisted, order-normalized set of extras (`quiet`,
//! `loglevel=N`).

use super::{ConfigError, MAX_CMDLINE};
use vstd::prelude::*;

verus! {

/// The forced baseline every bzImage boot runs with.
pub open spec fn forced_cmdline() -> Seq<u8> {
    seq![
        99u8, 111, 110, 115, 111, 108, 101, 61, 116, 116, 121, 83, 48, 32, 110, 111, 107, 97, 115,
        108, 114, 32, 110, 111, 114, 97, 110, 100, 109, 97, 112, 115, 32, 114, 97, 110, 100, 111,
        109, 46, 116, 114, 117, 115, 116, 95, 99, 112, 117, 61, 111, 102, 102, 32, 116, 115, 99,
        61, 117, 110, 115, 116, 97, 98, 108, 101, 32, 99, 108, 111, 99, 107, 115, 111, 117, 114,
        99, 101, 61, 100, 104, 45, 112, 118, 99, 108, 111, 99, 107, 32, 110, 111, 104, 122, 61,
        111, 102, 102, 32, 104, 105, 103, 104, 114, 101, 115, 61, 111, 102, 102, 32, 105, 110,
        105, 116, 61, 47, 105, 110, 105, 116,
    ]
}

/// `console=ttyS0 nokaslr norandmaps random.trust_cpu=off tsc=unstable
/// clocksource=dh-pvclock nohz=off highres=off init=/init`.
pub fn bzimage_forced_cmdline() -> (r: Vec<u8>)
    ensures
        r@ == forced_cmdline(),
{
    let v = vec![
        99u8, 111, 110, 115, 111, 108, 101, 61, 116, 116, 121, 83, 48, 32, 110, 111, 107, 97, 115,
        108, 114, 32, 110, 111, 114, 97, 110, 100, 109, 97, 112, 115, 32, 114, 97, 110, 100, 111,
        109, 46, 116, 114, 117, 115, 116, 95, 99, 112, 117, 61, 111, 102, 102, 32, 116, 115, 99,
        61, 117, 110, 115, 116, 97, 98, 108, 101, 32, 99, 108, 111, 99, 107, 115, 111, 117, 114,
        99, 101, 61, 100, 104, 45, 112, 118, 99, 108, 111, 99, 107, 32, 110, 111, 104, 122, 61,
        111, 102, 102, 32, 104, 105, 103, 104, 114, 101, 115, 61, 111, 102, 102, 32, 105, 110,
        105, 116, 61, 47, 105, 110, 105, 116,
    ];
    assert(v@ =~= forced_cmdline());
    v
}

pub open spec fn quiet_word() -> Seq<u8> {
    seq![113u8, 117, 105, 101, 116]
}

pub open spec fn loglevel_prefix() -> Seq<u8> {
    seq![108u8, 111, 103, 108, 101, 118, 101, 108, 61]
}

/// The baseline keys an extra may not override.
pub open spec fn baseline_keys() -> Seq<Seq<u8>> {
    seq![
        seq![99u8, 111, 110, 115, 111, 108, 101],
        seq![110u8, 111, 107, 97, 115, 108, 114],
        seq![110u8, 111, 114, 97, 110, 100, 109, 97, 112, 115],
        seq![114u8, 97, 110, 100, 111, 109, 46, 116, 114, 117, 115, 116, 95, 99, 112, 117],
        seq![116u8, 115, 99],
        seq![99u8, 108, 111, 99, 107, 115, 111, 117, 114, 99, 101],
        seq![110u8, 111, 104, 122],
        seq![104u8, 105, 103, 104, 114, 101, 115],
        seq![105u8, 110, 105, 116],
    ]
}

/// ASCII whitespace: space, tab, line feed, form feed, carriage return.
pub open spec fn is_ws(b: u8) -> bool {
    b == 32 || b == 9 || b == 10 || b == 12 || b == 13
}

/// The parsed whitelist extras.
#[derive(Clone, Copy, Debug, Default, PartialEq, Eq)]
pub struct BzImageCmdlineExtras {
    pub quiet: bool,
    pub loglevel: Option<u8>,
}

pub open spec fn no_extras() -> BzImageCmdlineExtras {
    BzImageCmdlineExtras { quiet: false, loglevel: None }
}

/// First index at or after `i` holding `sep`-class bytes, or the length.
pub open spec fn next_index(s: Seq<u8>, i: int, eq_sign: bool) -> int
    decreases s.len() - i,
{
    if i >= s.len() || i < 0 {
        s.len() as int
    } else if (eq_sign && s[i] == 61) || (!eq_sign && is_ws(s[i])) {
        i
    } else {
        next_index(s, i + 1, eq_sign)
    }
}

/// The scan for the next separator stays inside the line, never moves
/// backwards, and stops on a separator when it stops early.
pub proof fn lemma_next_index_bounds(s: Seq<u8>, i: int, eq_sign: bool)
    requires
        0 <= i,
    ensures
        0 <= next_index(s, i, eq_sign) <= s.len(),
        i <= s.len() ==> i <= next_index(s, i, eq_sign),
        next_index(s, i, eq_sign) < s.len() ==> (if eq_sign {
            s[next_index(s, i, eq_sign)] == 61
        } else {
            is_ws(s[next_index(s, i, eq_sign)])
        }),
    decreases s.len() - i,
{
    if i < s.len() && !((eq_sign && s[i] == 61) || (!eq_sign && is_ws(s[i]))) {
        lemma_next_index_bounds(s, i + 1, eq_sign);
    }
}

/// The key of a token: the bytes before its first `=`.
pub open spec fn token_key(tok: Seq<u8>) -> Seq<u8> {
    tok.subrange(0, next_index(tok, 0, true))
}

pub open spec fn is_baseline_key(tok: Seq<u8>) -> bool {
    baseline_keys().contains(token_key(tok))
}

/// One token folded into the extras parsed so far.
pub open spec fn spec_token(tok: Seq<u8>, acc: BzImageCmdlineExtras) -> Result<
    BzImageCmdlineExtras,
    ConfigError,
> {
    if is_baseline_key(tok) {
        Err(ConfigError::BzImageCmdlineBaselineOverride)
    } else if tok == quiet_word() {
        if acc.quiet {
            Err(ConfigError::BzImageCmdlineDuplicateToken)
        } else {
            Ok(BzImageCmdlineExtras { quiet: true, ..acc })
        }
    } else if tok.len() >= 9 && tok.subrange(0, 9) == loglevel_prefix() {
        if acc.loglevel is Some {
            Err(ConfigError::BzImageCmdlineDuplicateToken)
        } else if tok.len() != 10 || !(48 <= tok[9] <= 55) {
            Err(ConfigError::BzImageCmdlineUnsupportedToken)
        } else {
            Ok(BzImageCmdlineExtras { loglevel: Some((tok[9] - 48) as u8), ..acc })
        }
    } else {
        Err(ConfigError::BzImageCmdlineUnsupportedToken)
    }
}

/// The whitespace-separated tokens of `s`, folded left to right.
pub open spec fn spec_tokens(s: Seq<u8>, acc: BzImageCmdlineExtras) -> Result<
    BzImageCmdlineExtras,
    ConfigError,
>
    decreases s.len(),
{
    let j = next_index(s, 0, false);
    proof {
        lemma_next_index_bounds(s, 0, false);
    }
    match spec_token(s.subrange(0, j), acc) {
        Err(e) => Err(e),
        Ok(acc2) => if j >= s.len() {
            Ok(acc2)
        } else {
            spec_tokens(s.subrange(j + 1, s.len() as int), acc2)
        },
    }
}

pub open spec fn has_empty_token(e: Seq<u8>) -> bool {
    ||| is_ws(e[0])
    ||| is_ws(e[e.len() - 1])
    ||| exists|i: int| 0 <= i < e.len() - 1 && is_ws(#[trigger] e[i]) && is_ws(e[i + 1])
}

/// Parsing of the caller's extras.
pub open spec fn spec_parse_extras(e: Seq<u8>) -> Result<BzImageCmdlineExtras, ConfigError> {
    if e.len() == 0 {
        Ok(no_extras())
    } else if e.contains(0) {
        Err(ConfigError::BzImageCmdlineNul)
    } else if exists|i: int| 0 <= i < e.len() && #[trigger] e[i] >= 128 {
        Err(ConfigError::BzImageCmdlineNonAscii)
    } else if has_empty_token(e) {
        Err(ConfigError::BzImageCmdlineEmptyToken)
    } else {
        spec_tokens(e, no_extras())
    }
}

/// The baseline followed by the extras in whitelist order.
pub open spec fn spec_compose_bytes(baseline: Seq<u8>, x: BzImageCmdlineExtras) -> Seq<u8> {
    baseline + (if x.quiet {
        seq![32u8] + quiet_word()
    } else {
        Seq::empty()
    }) + (match x.loglevel {
        Some(l) => seq![32u8] + loglevel_prefix() + seq![(48 + l) as u8],
        None => Seq::empty(),
    })
}

pub open spec fn spec_compose(baseline: Seq<u8>, x: BzImageCmdlineExtras) -> Result<
    Seq<u8>,
    ConfigError,
> {
    if spec_compose_bytes(baseline, x).len() > MAX_CMDLINE {
        Err(ConfigError::CmdlineTooLong)
    } else {
        Ok(spec_compose_bytes(baseline, x))
    }
}

/// The canonical command line for the caller's extras.
pub open spec fn spec_canonicalize(extras: Seq<u8>) -> Result<Seq<u8>, ConfigError> {
    match spec_parse_extras(extras) {
        Err(e) => Err(e),
        Ok(x) => spec_compose(forced_cmdline(), x),
    }
}

/// Recovery of the caller's extras from a canonical command line.
pub open spec fn spec_extras_from_canonical(cmdline: Seq<u8>) -> Result<Seq<u8>, ConfigError> {
    let n = forced_cmdline().len() as int;
    if cmdline == forced_cmdline() {
        Ok(Seq::empty())
    } else if cmdline.len() < n || cmdline.subrange(0, n as int) != forced_cmdline() {
        Err(ConfigError::BzImageCmdlineNotCanonical)
    } else if cmdline.len() == n || cmdline[n as int] != 32 {
        Err(ConfigError::BzImageCmdlineNotCanonical)
    } else {
        let extras = cmdline.subrange(n + 1int, cmdline.len() as int);
        match spec_canonicalize(extras) {
            Err(e) => Err(e),
            Ok(re) => if re != cmdline {
                Err(ConfigError::BzImageCmdlineNotCanonical)
            } else {
                Ok(extras)
            },
        }
    }
}

pub open spec fn spec_validate_canonical(cmdline: Seq<u8>) -> Result<(), ConfigError> {
    if cmdline.len() > MAX_CMDLINE {
        Err(ConfigError::CmdlineTooLong)
    } else {
        match spec_extras_from_canonical(cmdline) {
            Err(e) => Err(e),
            Ok(_) => Ok(()),
        }
    }
}

// ---------------------------------------------------------------------

fn is_ascii_ws(b: u8) -> (r: bool)
    ensures
        r == is_ws(b),
{
    b == 32 || b == 9 || b == 10 || b == 12 || b == 13
}

/// `a[from..to] == lit`.
fn range_eq(a: &[u8], from: usize, to: usize, lit: &[u8]) -> (r: bool)
    requires
        from <= to <= a@.len(),
    ensures
        r == (a@.subrange(from as int, to as int) == lit@),
{
    if to - from != lit.len() {
        return false;
    }
    let mut i: usize = 0;
    while i < lit.len()
        invariant
            from <= to <= a@.len(),
            to - from == lit@.len(),
            i <= lit@.len(),
            forall|k: int| 0 <= k < i ==> a@[from + k] == lit@[k],
        decreases lit@.len() - i,
    {
        if a[from + i] != lit[i] {
            assert(a@.subrange(from as int, to as int)[i as int] != lit@[i as int]);
            return false;
        }
        i = i + 1;
    }
    assert(a@.subrange(from as int, to as int) =~= lit@);
    true
}

fn quiet_vec() -> (r: Vec<u8>)
    ensures
        r@ == quiet_word(),
{
    let v = vec![113u8, 117, 105, 101, 116];
    assert(v@ =~= quiet_word());
    v
}

fn loglevel_vec() -> (r: Vec<u8>)
    ensures
        r@ == loglevel_prefix(),
{
    let v = vec![108u8, 111, 103, 108, 101, 118, 101, 108, 61];
    assert(v@ =~= loglevel_prefix());
    v
}

fn baseline_key_vecs() -> (r: Vec<Vec<u8>>)
    ensures
        r@.len() == baseline_keys().len(),
        forall|i: int| 0 <= i < r@.len() ==> #[trigger] r@[i]@ == baseline_keys()[i],
{
    let k0 = vec![99u8, 111, 110, 115, 111, 108, 101];
    let k1 = vec![110u8, 111, 107, 97, 115, 108, 114];
    let k2 = vec![110u8, 111, 114, 97, 110, 100, 109, 97, 112, 115];
    let k3 = vec![114u8, 97, 110, 100, 111, 109, 46, 116, 114, 117, 115, 116, 95, 99, 112, 117];
    let k4 = vec![116u8, 115, 99];
    let k5 = vec![99u8, 108, 111, 99, 107, 115, 111, 117, 114, 99, 101];
    let k6 = vec![110u8, 111, 104, 122];
    let k7 = vec![104u8, 105, 103, 104, 114, 101, 115];
    let k8 = vec![105u8, 110, 105, 116];
    proof {
        assert(k0@ =~= baseline_keys()[0]);
        assert(k1@ =~= baseline_keys()[1]);
        assert(k2@ =~= baseline_keys()[2]);
        assert(k3@ =~= baseline_keys()[3]);
        assert(k4@ =~= baseline_keys()[4]);
        assert(k5@ =~= baseline_keys()[5]);
        assert(k6@ =~= baseline_keys()[6]);
        assert(k7@ =~= baseline_keys()[7]);
        assert(k8@ =~= baseline_keys()[8]);
    }
    let mut r: Vec<Vec<u8>> = Vec::new();
    r.push(k0);
    r.push(k1);
    r.push(k2);
    r.push(k3);
    r.push(k4);
    r.push(k5);
    r.push(k6);
    r.push(k7);
    r.push(k8);
    r
}

/// Index of the first byte at or after `i` in `a[..to]` that is `=` (or
/// whitespace), else `to`.
fn find_sep(a: &[u8], i: usize, to: usize, eq_sign: bool) -> (r: usize)
    requires
        i <= to <= a@.len(),
    ensures
        r == i + next_index(a@.subrange(i as int, to as int), 0, eq_sign),
        i <= r <= to,
{
    let ghost s = a@.subrange(i as int, to as int);
    let mut j = i;
    while j < to
        invariant
            i <= j <= to <= a@.len(),
            s == a@.subrange(i as int, to as int),
            next_index(s, 0, eq_sign) == next_index(s, (j - i) as int, eq_sign),
        decreases to - j,
    {
        let b = a[j];
        if (eq_sign && b == 61) || (!eq_sign && is_ascii_ws(b)) {
            assert(s[(j - i) as int] == b);
            return j;
        }
        assert(s[(j - i) as int] == b);
        j = j + 1;
    }
    j
}

/// Whether `tok = a[from..to]` has a baseline key.
pub(crate) fn is_forced_bzimage_baseline_key(a: &[u8], from: usize, to: usize) -> (r: bool)
    requires
        from <= to <= a@.len(),
    ensures
        r == is_baseline_key(a@.subrange(from as int, to as int)),
{
    let ghost tok = a@.subrange(from as int, to as int);
    let k = find_sep(a, from, to, true);
    proof {
        assert(a@.subrange(from as int, k as int) =~= token_key(tok));
    }
    let keys = baseline_key_vecs();
    let mut i: usize = 0;
    while i < keys.len()
        invariant
            keys@.len() == baseline_keys().len(),
            forall|q: int| 0 <= q < keys@.len() ==> #[trigger] keys@[q]@ == baseline_keys()[q],
            i <= keys@.len(),
            tok == a@.subrange(from as int, to as int),
            from <= k <= to <= a@.len(),
            a@.subrange(from as int, k as int) == token_key(tok),
            forall|q: int| 0 <= q < i ==> baseline_keys()[q] != token_key(tok),
        decreases keys@.len() - i,
    {
        if range_eq(a, from, k, keys[i].as_slice()) {
            assert(keys@[i as int]@ == baseline_keys()[i as int]);
            assert(baseline_keys()[i as int] == token_key(tok));
            assert(baseline_keys().contains(token_key(tok)));
            return true;
        }
        i = i + 1;
    }
    false
}

fn parse_token(a: &[u8], from: usize, to: usize, acc: BzImageCmdlineExtras) -> (r: Result<
    BzImageCmdlineExtras,
    ConfigError,
>)
    requires
        from <= to <= a@.len(),
    ensures
        r == spec_token(a@.subrange(from as int, to as int), acc),
        (acc.loglevel matches Some(l) ==> l <= 7) ==> (r matches Ok(x) ==> (x.loglevel matches Some(
            l2,
        ) ==> l2 <= 7)),
{
    let ghost tok = a@.subrange(from as int, to as int);
    if is_forced_bzimage_baseline_key(a, from, to) {
        return Err(ConfigError::BzImageCmdlineBaselineOverride);
    }
    let q = quiet_vec();
    if range_eq(a, from, to, q.as_slice()) {
        if acc.quiet {
            return Err(ConfigError::BzImageCmdlineDuplicateToken);
        }
        return Ok(BzImageCmdlineExtras { quiet: true, ..acc });
    }
    let l = loglevel_vec();
    if to - from >= 9 && range_eq(a, from, from + 9, l.as_slice()) {
        proof {
            assert(tok.subrange(0, 9) =~= a@.subrange(from as int, from + 9));
        }
        if acc.loglevel.is_some() {
            return Err(ConfigError::BzImageCmdlineDuplicateToken);
        }
        if to - from != 10 || !(48 <= a[from + 9] && a[from + 9] <= 55) {
            return Err(ConfigError::BzImageCmdlineUnsupportedToken);
        }
        return Ok(BzImageCmdlineExtras { loglevel: Some(a[from + 9] - 48), ..acc });
    }
    proof {
        if tok.len() >= 9 {
            assert(tok.subrange(0, 9) =~= a@.subrange(from as int, from + 9));
        }
    }
    Err(ConfigError::BzImageCmdlineUnsupportedToken)
}

proof fn lemma_tokens_step(s: Seq<u8>, i: int, j: int, acc: BzImageCmdlineExtras)
    requires
        0 <= i <= j <= s.len(),
        j == i + next_index(s.subrange(i, s.len() as int), 0, false),
    ensures
        spec_tokens(s.subrange(i, s.len() as int), acc) == (match spec_token(
            s.subrange(i, j),
            acc,
        ) {
            Err(e) => Err(e),
            Ok(acc2) => if j >= s.len() {
                Ok(acc2)
            } else {
                spec_tokens(s.subrange(j + 1, s.len() as int), acc2)
            },
        }),
{
    let t = s.subrange(i, s.len() as int);
    assert(t.subrange(0, j - i) =~= s.subrange(i, j));
    if j < s.len() {
        assert(t.subrange(j - i + 1, t.len() as int) =~= s.subrange(j + 1, s.len() as int));
    }
}

pub(crate) fn parse_bzimage_cmdline_extras(extras: &[u8]) -> (r: Result<
    BzImageCmdlineExtras,
    ConfigError,
>)
    ensures
        r == spec_parse_extras(extras@),
        r matches Ok(x) ==> (x.loglevel matches Some(l) ==> l <= 7),
{
    let n = extras.len();
    if n == 0 {
        return Ok(BzImageCmdlineExtras { quiet: false, loglevel: None });
    }
    let mut i: usize = 0;
    while i < n
        invariant
            n == extras@.len(),
            i <= n,
            forall|k: int| 0 <= k < i ==> extras@[k] != 0,
        decreases n - i,
    {
        if extras[i] == 0 {
            assert(extras@.contains(0));
            return Err(ConfigError::BzImageCmdlineNul);
        }
        i = i + 1;
    }
    let mut i: usize = 0;
    while i < n
        invariant
            n == extras@.len(),
            i <= n,
            forall|k: int| 0 <= k < n ==> extras@[k] != 0,
            forall|k: int| 0 <= k < i ==> extras@[k] < 128,
        decreases n - i,
    {
        if extras[i] >= 128 {
            assert(extras@[i as int] >= 128);
            assert(!extras@.contains(0));
            return Err(ConfigError::BzImageCmdlineNonAscii);
        }
        i = i + 1;
    }
    if is_ascii_ws(extras[0]) || is_ascii_ws(extras[n - 1]) {
        return Err(ConfigError::BzImageCmdlineEmptyToken);
    }
    let mut i: usize = 0;
    while i + 1 < n
        invariant
            n == extras@.len(),
            n >= 1,
            i + 1 <= n,
            forall|k: int| 0 <= k < n ==> extras@[k] != 0,
            forall|k: int| 0 <= k < n ==> extras@[k] < 128,
            !is_ws(extras@[0]),
            !is_ws(extras@[n - 1]),
            forall|k: int| 0 <= k < i ==> !(is_ws(#[trigger] extras@[k]) && is_ws(extras@[k + 1])),
        decreases n - i,
    {
        if is_ascii_ws(extras[i]) && is_ascii_ws(extras[i + 1]) {
            assert(is_ws(extras@[i as int]) && is_ws(extras@[i + 1]));
            assert(has_empty_token(extras@));
            return Err(ConfigError::BzImageCmdlineEmptyToken);
        }
        i = i + 1;
    }
    assert(!extras@.contains(0));
    assert(!(exists|k: int| 0 <= k < extras@.len() && #[trigger] extras@[k] >= 128));
    assert(!has_empty_token(extras@));
    let ghost s = extras@;
    let mut parsed = BzImageCmdlineExtras { quiet: false, loglevel: None };
    let mut start: usize = 0;
    proof {
        assert(s.subrange(0, n as int) =~= s);
        assert(spec_parse_extras(s) == spec_tokens(s, no_extras()));
    }
    loop
        invariant
            n == extras@.len(),
            s == extras@,
            start <= n,
            spec_parse_extras(s) == spec_tokens(s, no_extras()),
            parsed.loglevel matches Some(l) ==> l <= 7,
            spec_tokens(s, no_extras()) == spec_tokens(s.subrange(start as int, n as int), parsed),
        decreases n - start,
    {
        let end = find_sep(extras, start, n, false);
        proof {
            lemma_tokens_step(s, start as int, end as int, parsed);
        }
        match parse_token(extras, start, end, parsed) {
            Err(e) => return Err(e),
            Ok(p2) => {
                parsed = p2;
            },
        }
        if end >= n {
            return Ok(parsed);
        }
        start = end + 1;
    }
}

pub fn compose_bzimage_cmdline(baseline: &[u8], extras: BzImageCmdlineExtras) -> (r: Result<
    Vec<u8>,
    ConfigError,
>)
    requires
        extras.loglevel matches Some(l) ==> l <= 207,
    ensures
        match spec_compose(baseline@, extras) {
            Ok(b) => r matches Ok(v) && v@ == b,
            Err(e) => r == Err::<Vec<u8>, ConfigError>(e),
        },
{
    let mut out = crate::codec::copy_range(baseline, 0, baseline.len());
    assert(baseline@.subrange(0, baseline@.len() as int) =~= baseline@);
    let ghost after_base = out@;
    if extras.quiet {
        out.push(32u8);
        let q = quiet_vec();
        crate::codec::push_bytes(&mut out, q.as_slice());
    }
    let ghost after_quiet = out@;
    assert(after_quiet =~= baseline@ + (if extras.quiet {
        seq![32u8] + quiet_word()
    } else {
        Seq::empty()
    }));
    match extras.loglevel {
        Some(level) => {
            out.push(32u8);
            let l = loglevel_vec();
            crate::codec::push_bytes(&mut out, l.as_slice());
            out.push(48 + level);
        },
        None => {},
    }
    assert(out@ =~= spec_compose_bytes(baseline@, extras));
    if out.len() > MAX_CMDLINE {
        return Err(ConfigError::CmdlineTooLong);
    }
    Ok(out)
}

/// Canonical command line for the caller's `extras`: the forced baseline
/// then `quiet` and `loglevel=N` in that order, whatever the caller's order.
pub fn canonicalize_bzimage_cmdline_extras(extras: &[u8]) -> (r: Result<Vec<u8>, ConfigError>)
    ensures
        match spec_canonicalize(extras@) {
            Ok(b) => r matches Ok(v) && v@ == b,
            Err(e) => r == Err::<Vec<u8>, ConfigError>(e),
        },
{
    let parsed = match parse_bzimage_cmdline_extras(extras) {
        Ok(p) => p,
        Err(e) => return Err(e),
    };
    let base = bzimage_forced_cmdline();
    compose_bzimage_cmdline(base.as_slice(), parsed)
}

/// The caller's extras recovered from a canonical command line; any
/// non-canonical line is refused.
pub fn bzimage_cmdline_extras_from_canonical(cmdline: &[u8]) -> (r: Result<Vec<u8>, ConfigError>)
    ensures
        match spec_extras_from_canonical(cmdline@) {
            Ok(b) => r matches Ok(v) && v@ == b,
            Err(e) => r == Err::<Vec<u8>, ConfigError>(e),
        },
{
    let base = bzimage_forced_cmdline();
    let n = base.len();
    let m = cmdline.len();
    if m == n && range_eq(cmdline, 0, m, base.as_slice()) {
        assert(cmdline@.subrange(0, m as int) =~= cmdline@);
        return Ok(Vec::new());
    }
    proof {
        if m == n {
            assert(cmdline@.subrange(0, m as int) =~= cmdline@);
        }
    }
    if m < n || !range_eq(cmdline, 0, n, base.as_slice()) {
        return Err(ConfigError::BzImageCmdlineNotCanonical);
    }
    if m == n || cmdline[n] != 32 {
        return Err(ConfigError::BzImageCmdlineNotCanonical);
    }
    let extras = vstd::slice::slice_subrange(cmdline, n + 1, m);
    let re = match canonicalize_bzimage_cmdline_extras(extras) {
        Ok(v) => v,
        Err(e) => return Err(e),
    };
    if !(re.len() == m && range_eq(cmdline, 0, m, re.as_slice())) {
        proof {
            if re@.len() == m {
                assert(cmdline@.subrange(0, m as int) =~= cmdline@);
            }
        }
        return Err(ConfigError::BzImageCmdlineNotCanonical);
    }
    proof {
        assert(cmdline@.subrange(0, m as int) =~= cmdline@);
    }
    Ok(crate::codec::copy_range(cmdline, n + 1, m))
}

pub(crate) fn validate_canonical_bzimage_cmdline(cmdline: &[u8]) -> (r: Result<(), ConfigError>)
    ensures
        r == spec_validate_canonical(cmdline@),
{
    if cmdline.len() > MAX_CMDLINE {
        return Err(ConfigError::CmdlineTooLong);
    }
    match bzimage_cmdline_extras_from_canonical(cmdline) {
        Ok(_) => Ok(()),
        Err(e) => Err(e),
    }
}

/// Canonicalization is idempotent on the extras it produces: the extras of
/// a canonical line canonicalize back to that very line.
pub proof fn lemma_extras_from_canonical_roundtrip(cmdline: Seq<u8>)
    requires
        spec_extras_from_canonical(cmdline) is Ok,
        cmdline != forced_cmdline(),
    ensures
        spec_canonicalize(spec_extras_from_canonical(cmdline)->Ok_0) == Ok::<
            Seq<u8>,
            ConfigError,
        >(cmdline),
{
}

/// The extras part of a canonical command line (after the baseline and
/// its separating space): `quiet`, then `loglevel=N`, space-separated.
pub open spec fn canonical_extras(x: BzImageCmdlineExtras) -> Seq<u8> {
    match x.loglevel {
        Some(l) => if x.quiet {
            quiet_word() + seq![32u8] + loglevel_prefix() + seq![(48 + l) as u8]
        } else {
            loglevel_prefix() + seq![(48 + l) as u8]
        },
        None => if x.quiet {
            quiet_word()
        } else {
            Seq::empty()
        },
    }
}

proof fn lemma_not_baseline_by_len(k: Seq<u8>)
    requires
        k.len() == 5 || k.len() == 8,
    ensures
        !baseline_keys().contains(k),
{
    if baseline_keys().contains(k) {
        let i = choose|i: int| 0 <= i < baseline_keys().len() && baseline_keys()[i] == k;
        assert(baseline_keys()[i].len() != 5 && baseline_keys()[i].len() != 8);
    }
}

/// Parsing `tok` as one token after `acc`, where `tok` is `quiet`.
proof fn lemma_token_quiet(acc: BzImageCmdlineExtras)
    requires
        !acc.quiet,
    ensures
        spec_token(quiet_word(), acc) == Ok::<BzImageCmdlineExtras, ConfigError>(
            BzImageCmdlineExtras { quiet: true, ..acc },
        ),
{
    let q = quiet_word();
    reveal_with_fuel(next_index, 7);
    assert(next_index(q, 0, true) == 5);
    assert(q.subrange(0, 5) =~= q);
    lemma_not_baseline_by_len(q);
}

/// Parsing `loglevel=N` as one token after `acc`.
proof fn lemma_token_loglevel(acc: BzImageCmdlineExtras, l: u8)
    requires
        acc.loglevel is None,
        l < 8,
    ensures
        spec_token(loglevel_prefix() + seq![(48 + l) as u8], acc) == Ok::<
            BzImageCmdlineExtras,
            ConfigError,
        >(BzImageCmdlineExtras { loglevel: Some(l), ..acc }),
{
    let t = loglevel_prefix() + seq![(48 + l) as u8];
    reveal_with_fuel(next_index, 10);
    assert(t[8] == 61);
    assert(next_index(t, 0, true) == 8);
    let k = t.subrange(0, 8);
    lemma_not_baseline_by_len(k);
    assert(t != quiet_word()) by {
        assert(t.len() != quiet_word().len());
    }
    assert(t.subrange(0, 9) =~= loglevel_prefix());
}

/// A canonical extras part parses back to the extras it came from.
proof fn lemma_canonical_extras_parse(x: BzImageCmdlineExtras)
    requires
        x != no_extras(),
        x.loglevel matches Some(l) ==> l < 8,
    ensures
        spec_parse_extras(canonical_extras(x)) == Ok::<BzImageCmdlineExtras, ConfigError>(x),
{
    let e = canonical_extras(x);
    let n0 = no_extras();
    assert(e.len() > 0);
    assert forall|i: int| 0 <= i < e.len() implies 32 <= #[trigger] e[i] < 128 && (e[i] == 32
        ==> i == 5) by {
        if x.quiet && x.loglevel is Some {
            assert(e[i] == (quiet_word() + seq![32u8] + loglevel_prefix() + seq![
                (48 + x.loglevel->0) as u8,
            ])[i]);
        }
    }
    assert(!e.contains(0));
    assert(!(exists|i: int| 0 <= i < e.len() && #[trigger] e[i] >= 128));
    assert(!has_empty_token(e)) by {
        assert(!is_ws(e[0]));
        assert(!is_ws(e[e.len() - 1]));
        if exists|i: int| 0 <= i < e.len() - 1 && is_ws(#[trigger] e[i]) && is_ws(e[i + 1]) {
            let i = choose|i: int| 0 <= i < e.len() - 1 && is_ws(#[trigger] e[i]) && is_ws(e[i + 1]);
            assert(e[i] == 32 && e[i + 1] == 32);
        }
    }
    reveal_with_fuel(next_index, 12);
    match x.loglevel {
        Some(l) => {
            let t = loglevel_prefix() + seq![(48 + l) as u8];
            lemma_token_loglevel(BzImageCmdlineExtras { quiet: x.quiet, loglevel: None }, l);
            if x.quiet {
                assert(next_index(e, 0, false) == 5);
                assert(e.subrange(0, 5) =~= quiet_word());
                lemma_token_quiet(n0);
                let rest = e.subrange(6, e.len() as int);
                assert(rest =~= t);
                assert(next_index(t, 0, false) == 10);
                assert(t.subrange(0, 10) =~= t);
                assert(spec_tokens(t, BzImageCmdlineExtras { quiet: true, loglevel: None }) == Ok::<
                    BzImageCmdlineExtras,
                    ConfigError,
                >(x));
            } else {
                assert(e =~= t);
                assert(next_index(t, 0, false) == 10);
                assert(t.subrange(0, 10) =~= t);
            }
        },
        None => {
            assert(x.quiet);
            assert(e =~= quiet_word());
            assert(next_index(e, 0, false) == 5);
            assert(e.subrange(0, 5) =~= quiet_word());
            lemma_token_quiet(n0);
        },
    }
}

/// Every parsed loglevel is a single digit 0..=7.
proof fn lemma_tokens_loglevel(s: Seq<u8>, acc: BzImageCmdlineExtras)
    requires
        acc.loglevel matches Some(l) ==> l < 8,
    ensures
        spec_tokens(s, acc) matches Ok(x) ==> (x.loglevel matches Some(l) ==> l < 8),
    decreases s.len(),
{
    let j = next_index(s, 0, false);
    lemma_next_index_bounds(s, 0, false);
    match spec_token(s.subrange(0, j), acc) {
        Err(_) => {},
        Ok(acc2) => if j < s.len() {
            lemma_tokens_loglevel(s.subrange(j + 1, s.len() as int), acc2);
        },
    }
}

/// A canonical command line is accepted by the recovery, and the extras
/// it recovers canonicalize back to that line; the bare baseline recovers
/// no extras.
pub proof fn lemma_canonical_line_is_recovered(extras: Seq<u8>)
    requires
        spec_canonicalize(extras) is Ok,
    ensures
        spec_extras_from_canonical(spec_canonicalize(extras)->Ok_0) is Ok,
        spec_canonicalize(spec_extras_from_canonical(spec_canonicalize(extras)->Ok_0)->Ok_0)
            == spec_canonicalize(extras),
        spec_canonicalize(extras)->Ok_0 == forced_cmdline() ==> spec_extras_from_canonical(
            spec_canonicalize(extras)->Ok_0,
        )->Ok_0.len() == 0,
{
    let x = spec_parse_extras(extras)->Ok_0;
    let c = spec_canonicalize(extras)->Ok_0;
    let f = forced_cmdline();
    let n = f.len() as int;
    if extras.len() > 0 {
        lemma_tokens_loglevel(extras, no_extras());
    }
    if x == no_extras() {
        assert(c =~= f);
        assert(spec_parse_extras(Seq::<u8>::empty()) == Ok::<BzImageCmdlineExtras, ConfigError>(
            no_extras(),
        ));
    } else {
        assert(c =~= f + seq![32u8] + canonical_extras(x));
        assert(c.subrange(0, n) =~= f);
        assert(c[n] == 32);
        assert(c != f);
        assert(c.subrange(n + 1, c.len() as int) =~= canonical_extras(x));
        lemma_canonical_extras_parse(x);
    }
}

} // verus!
