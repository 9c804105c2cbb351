use vstd::prelude::*;
use crate::text::{chars_of, push_char};

verus! {

/// `s` split at every '/', as `str::split('/')` does: one more piece than there are slashes.
pub open spec fn split_slash(s: Seq<char>) -> Seq<Seq<char>>
    decreases s.len(),
{
    if s.len() == 0 {
        seq![Seq::<char>::empty()]
    } else {
        let p = split_slash(s.drop_last());
        if s.last() == '/' {
            p.push(Seq::<char>::empty())
        } else {
            p.update(p.len() - 1, p.last().push(s.last()))
        }
    }
}

proof fn lemma_split_slash_nonempty(s: Seq<char>)
    ensures
        split_slash(s).len() >= 1,
    decreases s.len(),
{
    if s.len() > 0 {
        lemma_split_slash_nonempty(s.drop_last());
    }
}

/// Path resolution applied to one component: empty components and "." are skipped, ".."
/// drops the last kept component unless only the first (the disk) is left.
pub open spec fn apply_component(acc: Seq<Seq<char>>, part: Seq<char>) -> Seq<Seq<char>> {
    if part.len() == 0 || part == seq!['.'] {
        acc
    } else if part == seq!['.', '.'] {
        if acc.len() > 1 {
            acc.drop_last()
        } else {
            acc
        }
    } else {
        acc.push(part)
    }
}

/// The kept components after applying every component in order.
pub open spec fn normalize_components(parts: Seq<Seq<char>>) -> Seq<Seq<char>>
    decreases parts.len(),
{
    if parts.len() == 0 {
        Seq::empty()
    } else {
        apply_component(normalize_components(parts.drop_last()), parts.last())
    }
}

/// The components joined with '/'.
pub open spec fn join_slash(parts: Seq<Seq<char>>) -> Seq<char>
    decreases parts.len(),
{
    if parts.len() == 0 {
        Seq::empty()
    } else if parts.len() == 1 {
        parts[0]
    } else {
        join_slash(parts.drop_last()) + seq!['/'] + parts.last()
    }
}

/// A component resolution keeps: not empty, not "." or "..", and without a '/'.
pub open spec fn plain_component(c: Seq<char>) -> bool {
    &&& c.len() > 0
    &&& c != seq!['.']
    &&& c != seq!['.', '.']
    &&& forall|i: int| 0 <= i < c.len() ==> #[trigger] c[i] != '/'
}

/// Splitting at '/' leaves no '/' inside a piece.
pub proof fn lemma_split_no_slash(s: Seq<char>)
    ensures
        forall|k: int, i: int|
            0 <= k < split_slash(s).len() && 0 <= i < split_slash(s)[k].len() ==> #[trigger] split_slash(s)[k][i] != '/',
    decreases s.len(),
{
    if s.len() > 0 {
        lemma_split_no_slash(s.drop_last());
        lemma_split_slash_nonempty(s.drop_last());
        let p = split_slash(s.drop_last());
        if s.last() != '/' {
            let q = p.update(p.len() - 1, p.last().push(s.last()));
            assert forall|k: int, i: int| 0 <= k < q.len() && 0 <= i < q[k].len() implies #[trigger] q[k][i] != '/' by {
                if k == p.len() - 1 {
                    if i < p.last().len() {
                        assert(q[k][i] == p.last()[i]);
                        assert(p[p.len() - 1][i] != '/');
                    }
                } else {
                    assert(q[k] == p[k]);
                }
            }
        } else {
            let q = p.push(Seq::<char>::empty());
            assert forall|k: int, i: int| 0 <= k < q.len() && 0 <= i < q[k].len() implies #[trigger] q[k][i] != '/' by {
                if k < p.len() {
                    assert(q[k] == p[k]);
                }
            }
        }
    }
}

/// Resolution keeps only plain components of the pieces it is given: no empty piece, no
/// "." and no "..", each of them one of the pieces.
pub proof fn lemma_normalize_plain(parts: Seq<Seq<char>>)
    requires
        forall|k: int, i: int| 0 <= k < parts.len() && 0 <= i < parts[k].len() ==> #[trigger] parts[k][i] != '/',
    ensures
        forall|k: int| 0 <= k < normalize_components(parts).len() ==> plain_component(#[trigger] normalize_components(parts)[k]),
        forall|k: int| 0 <= k < normalize_components(parts).len() ==> parts.contains(#[trigger] normalize_components(parts)[k]),
    decreases parts.len(),
{
    if parts.len() > 0 {
        let init = parts.drop_last();
        assert forall|k: int, i: int| 0 <= k < init.len() && 0 <= i < init[k].len() implies #[trigger] init[k][i] != '/' by {
            assert(init[k] == parts[k]);
        }
        lemma_normalize_plain(init);
        let acc = normalize_components(init);
        let part = parts.last();
        let out = normalize_components(parts);
        assert forall|k: int| 0 <= k < out.len() implies plain_component(#[trigger] out[k]) && parts.contains(out[k]) by {
            if k < acc.len() && (out.len() <= acc.len() || k < out.len() - 1 || part.len() == 0 || part == seq!['.'] || part == seq!['.', '.']) {
                assert(out[k] == acc[k]);
                assert(plain_component(acc[k]));
                let j = choose|j: int| 0 <= j < init.len() && init[j] == acc[k];
                assert(parts[j] == init[j]);
            } else {
                assert(out[k] == part);
                assert(forall|i: int| 0 <= i < part.len() ==> part[i] == parts[parts.len() - 1][i]);
                assert(parts[parts.len() - 1] == part);
            }
        }
    }
}

/// A resolved path is its plain components joined with '/': no empty, "." or ".."
/// component survives resolution.
pub proof fn lemma_resolved_plain(cwd: Seq<char>, path: Seq<char>)
    ensures
        ({
            let comps = normalize_components(split_slash(full_path(cwd, path)));
            &&& resolved_path(cwd, path) == join_slash(comps)
            &&& forall|k: int| 0 <= k < comps.len() ==> plain_component(#[trigger] comps[k])
        }),
{
    lemma_split_no_slash(full_path(cwd, path));
    lemma_normalize_plain(split_slash(full_path(cwd, path)));
}

/// The default disk prefix for absolute paths.
pub open spec fn default_disk() -> Seq<char> {
    seq!['@', '0', 'x', 'E', '0']
}

/// The path before normalisation: paths starting with '@' name their disk, paths starting
/// with '/' are on the default disk, others are relative to `cwd`.
pub open spec fn full_path(cwd: Seq<char>, path: Seq<char>) -> Seq<char> {
    if path.len() > 0 && path[0] == '@' {
        path
    } else if path.len() > 0 && path[0] == '/' {
        default_disk() + path
    } else {
        cwd + path
    }
}

/// The resolved form of `path` seen from `cwd`.
pub open spec fn resolved_path(cwd: Seq<char>, path: Seq<char>) -> Seq<char> {
    join_slash(normalize_components(split_slash(full_path(cwd, path))))
}

fn is_dot(part: &Vec<char>) -> (b: bool)
    ensures
        b == (part@ == seq!['.']),
{
    let r = part.len() == 1 && part[0] == '.';
    proof {
        if part@.len() == 1 && part@[0] == '.' {
            assert(part@ =~= seq!['.']);
        }
    }
    r
}

fn is_dot_dot(part: &Vec<char>) -> (b: bool)
    ensures
        b == (part@ == seq!['.', '.']),
{
    let r = part.len() == 2 && part[0] == '.' && part[1] == '.';
    proof {
        if part@.len() == 2 && part@[0] == '.' && part@[1] == '.' {
            assert(part@ =~= seq!['.', '.']);
        }
    }
    r
}

/// Applies one component to the kept list.
fn push_component(parts: &mut Vec<Vec<char>>, part: Vec<char>)
    ensures
        final(parts)@.map_values(|p: Vec<char>| p@) == apply_component(
            old(parts)@.map_values(|p: Vec<char>| p@),
            part@,
        ),
{
    let ghost acc = old(parts)@.map_values(|p: Vec<char>| p@);
    if part.len() == 0 || is_dot(&part) {
        return;
    } else if is_dot_dot(&part) {
        if parts.len() > 1 {
            parts.pop();
            proof {
                assert(parts@.map_values(|p: Vec<char>| p@) =~= acc.drop_last());
            }
        }
    } else {
        parts.push(part);
        proof {
            assert(parts@.map_values(|p: Vec<char>| p@) =~= acc.push(part@));
        }
    }
}

/// Resolves `path` against the working directory `cwd` into "@disk/a/b" form: '.' and empty
/// components are dropped and '..' goes up one level but never above the disk.
pub fn resolve_path(cwd: &str, path: &str) -> (res: String)
    ensures
        res@ == resolved_path(cwd@, path@),
{
    let p = chars_of(path);
    let mut full: Vec<char> = Vec::new();
    if p.len() > 0 && p[0] == '@' {
        full = p;
    } else if p.len() > 0 && p[0] == '/' {
        full.push('@');
        full.push('0');
        full.push('x');
        full.push('E');
        full.push('0');
        full.append(&mut p.clone());
        proof {
            assert(full@ =~= default_disk() + path@);
        }
    } else {
        full = chars_of(cwd);
        full.append(&mut p.clone());
    }
    let ghost fp = full_path(cwd@, path@);
    proof {
        assert(full@ =~= fp);
    }
    let mut parts: Vec<Vec<char>> = Vec::new();
    let mut current: Vec<char> = Vec::new();
    let mut i: usize = 0;
    while i < full.len()
        invariant
            i <= full@.len(),
            full@ == fp,
            split_slash(fp.take(i as int)).len() >= 1,
            current@ == split_slash(fp.take(i as int)).last(),
            parts@.map_values(|p: Vec<char>| p@) == normalize_components(
                split_slash(fp.take(i as int)).drop_last(),
            ),
        decreases full@.len() - i,
    {
        let c = full[i];
        let ghost pre = split_slash(fp.take(i as int));
        proof {
            assert(fp.take(i + 1).drop_last() =~= fp.take(i as int));
            assert(fp.take(i + 1).last() == c);
        }
        if c == '/' {
            let done = current;
            current = Vec::new();
            push_component(&mut parts, done);
            proof {
                let post = split_slash(fp.take(i + 1));
                assert(post == pre.push(Seq::<char>::empty()));
                assert(post.drop_last() =~= pre);
                assert(pre =~= pre.drop_last().push(pre.last()));
                assert(current@ =~= post.last());
            }
        } else {
            current.push(c);
            proof {
                let post = split_slash(fp.take(i + 1));
                assert(post.drop_last() =~= pre.drop_last());
            }
        }
        i += 1;
        proof {
            lemma_split_slash_nonempty(fp.take(i as int));
        }
    }
    proof {
        let all = split_slash(fp.take(i as int));
        assert(fp.take(i as int) =~= fp);
        assert(all =~= all.drop_last().push(all.last()));
    }
    push_component(&mut parts, current);
    let ghost kept = normalize_components(split_slash(fp));
    let mut res = String::new();
    let mut k: usize = 0;
    while k < parts.len()
        invariant
            parts@.map_values(|p: Vec<char>| p@) == kept,
            k <= parts@.len(),
            res@ == join_slash(kept.take(k as int)),
        decreases parts@.len() - k,
    {
        let ghost before = res@;
        if k > 0 {
            push_char(&mut res, '/');
        }
        let part = &parts[k];
        let mut j: usize = 0;
        proof {
            assert(res@ =~= before + (if k > 0 { seq!['/'] } else { Seq::<char>::empty() }) + part@.take(0));
        }
        while j < part.len()
            invariant
                j <= part@.len(),
                res@ == before + (if k > 0 { seq!['/'] } else { Seq::<char>::empty() }) + part@.take(j as int),
            decreases part@.len() - j,
        {
            push_char(&mut res, part[j]);
            j += 1;
            proof {
                assert(part@.take(j as int) =~= part@.take(j - 1).push(part@[j - 1]));
            }
        }
        proof {
            assert(part@.take(j as int) =~= part@);
            assert(kept[k as int] == part@);
            assert(kept.take(k + 1).drop_last() =~= kept.take(k as int));
            if k == 0 {
                assert(res@ =~= join_slash(kept.take(1)));
            } else {
                assert(kept.take(k + 1).last() == kept[k as int]);
                assert(join_slash(kept.take(k + 1)) == join_slash(kept.take(k as int)) + seq!['/'] + kept[k as int]);
                assert(res@ =~= join_slash(kept.take(k + 1)));
            }
        }
        k += 1;
    }
    proof {
        assert(kept.take(k as int) =~= kept);
    }
    res
}


/// The value of ASCII digit or letter `c` (letters count from ten, either case), or 36
/// for any other character.
pub open spec fn char_digit(c: char) -> int {
    let v = c as int;
    if 48 <= v <= 57 {
        v - 48
    } else if 97 <= v <= 122 {
        v - 97 + 10
    } else if 65 <= v <= 90 {
        v - 65 + 10
    } else {
        36
    }
}

/// Every character of `s` is a digit of base `radix`.
pub open spec fn radix_digits(s: Seq<char>, radix: int) -> bool {
    forall|i: int| 0 <= i < s.len() ==> #[trigger] char_digit(s[i]) < radix
}

/// The value of the digits `s` in base `radix`.
pub open spec fn radix_value(s: Seq<char>, radix: int) -> int
    decreases s.len(),
{
    if s.len() == 0 {
        0
    } else {
        radix_value(s.drop_last(), radix) * radix + char_digit(s.last())
    }
}

/// What `u8::from_str_radix(s, radix)` gives: an optional `+` followed by at least one
/// digit of the base, worth at most 255.
pub open spec fn parse_u8(s: Seq<char>, radix: int) -> Option<u8> {
    let body = if s.len() > 0 && s[0] == '+' { s.drop_first() } else { s };
    if body.len() > 0 && radix_digits(body, radix) && radix_value(body, radix) <= 255 {
        Some(radix_value(body, radix) as u8)
    } else {
        None
    }
}

/// A prefix of valid digits is worth no more than the whole.
proof fn lemma_radix_prefix(s: Seq<char>, radix: int, k: int)
    requires
        0 <= k <= s.len(),
        radix >= 1,
        radix_digits(s, radix),
    ensures
        0 <= radix_value(s.take(k), radix) <= radix_value(s, radix),
    decreases s.len(),
{
    if s.len() > 0 {
        let t = s.drop_last();
        assert(radix_digits(t, radix)) by {
            assert forall|i: int| 0 <= i < t.len() implies #[trigger] char_digit(t[i]) < radix by {
                assert(t[i] == s[i]);
            }
        }
        assert(char_digit(s[s.len() - 1]) < radix);
        if k < s.len() {
            lemma_radix_prefix(t, radix, k);
            assert(t.take(k) =~= s.take(k));
        } else {
            lemma_radix_prefix(t, radix, t.len() as int);
            assert(t.take(t.len() as int) =~= t);
            assert(s.take(k) =~= s);
        }
        assert(radix_value(t, radix) * radix >= radix_value(t, radix)) by (nonlinear_arith)
            requires
                radix >= 1,
                radix_value(t, radix) >= 0,
        ;
    }
}

/// The digit value of `c`.
fn digit_of(c: char) -> (r: u32)
    ensures
        r == char_digit(c),
{
    let v = c as u32;
    if 48 <= v && v <= 57 {
        v - 48
    } else if 97 <= v && v <= 122 {
        v - 97 + 10
    } else if 65 <= v && v <= 90 {
        v - 65 + 10
    } else {
        36
    }
}

/// Parses `s[from..to]` as `u8::from_str_radix` does.
fn parse_u8_radix(s: &Vec<char>, from: usize, to: usize, radix: u32) -> (r: Option<u8>)
    requires
        from <= to <= s@.len(),
        2 <= radix <= 36,
    ensures
        r == parse_u8(s@.subrange(from as int, to as int), radix as int),
{
    let ghost t = s@.subrange(from as int, to as int);
    let mut i = from;
    if i < to && s[i] == '+' {
        i += 1;
    }
    let ghost body = s@.subrange(i as int, to as int);
    assert(body =~= if t.len() > 0 && t[0] == '+' { t.drop_first() } else { t });
    if i == to {
        return None;
    }
    let mut acc: u32 = 0;
    let start = i;
    while i < to
        invariant
            start <= i <= to,
            to <= s@.len(),
            from <= start,
            2 <= radix <= 36,
            body == s@.subrange(start as int, to as int),
            t == s@.subrange(from as int, to as int),
            body == (if t.len() > 0 && t[0] == '+' { t.drop_first() } else { t }),
            body.len() > 0,
            acc <= 255,
            acc == radix_value(body.take(i - start), radix as int),
            radix_digits(body.take(i - start), radix as int),
        decreases to - i,
    {
        let d = digit_of(s[i]);
        if d >= radix {
            assert(char_digit(body[i - start]) >= radix);
            return None;
        }
        let ghost pre = body.take(i - start);
        let ghost next = body.take(i - start + 1);
        assert(next.drop_last() =~= pre);
        assert(next.last() == s@[i as int]);
        assert(radix_digits(next, radix as int)) by {
            assert forall|j: int| 0 <= j < next.len() implies #[trigger] char_digit(next[j]) < radix by {
                if j < pre.len() {
                    assert(next[j] == pre[j]);
                }
            }
        }
        assert(acc * radix <= 255 * 36) by (nonlinear_arith)
            requires
                acc <= 255,
                radix <= 36,
        ;
        let v = acc * radix + d;
        i += 1;
        if v > 255 {
            proof {
                if radix_digits(body, radix as int) {
                    lemma_radix_prefix(body, radix as int, i - start);
                }
            }
            return None;
        }
        acc = v;
    }
    assert(body.take(body.len() as int) =~= body);
    Some(acc as u8)
}

/// Index of the first '/' in `s`, or its length when there is none.
pub open spec fn first_slash(s: Seq<char>) -> int {
    if exists|i: int| 0 <= i < s.len() && s[i] == '/' {
        choose|i: int| 0 <= i < s.len() && s[i] == '/' && forall|j: int| 0 <= j < i ==> #[trigger] s[j] != '/'
    } else {
        s.len() as int
    }
}

/// The disk a resolved path's first component names: `0x` (or `0X`) then hex digits, or
/// else a decimal number, or else hex digits; 0xFF when none of these reads.
pub open spec fn disk_id_of(d: Seq<char>) -> u8 {
    if d.len() >= 2 && d[0] == '0' && (d[1] == 'x' || d[1] == 'X') {
        match parse_u8(d.subrange(2, d.len() as int), 16) {
            Some(v) => v,
            None => 0xFF,
        }
    } else {
        match parse_u8(d, 10) {
            Some(v) => v,
            None => match parse_u8(d, 16) {
                Some(v) => v,
                None => 0xFF,
            },
        }
    }
}

/// Splits a resolved path such as "@0xE0/a/b" into its disk (the first component without
/// its leading marker character) and the rest of the path after the first '/'.
pub fn disk_and_path(resolved: &str) -> (r: (u8, String))
    requires
        resolved@.len() > 0,
        resolved@[0] != '/',
        (resolved@[0] as int) < 128,
    ensures
        ({
            let s = resolved@;
            let k = first_slash(s);
            &&& r.0 == disk_id_of(s.subrange(1, k))
            &&& r.1@ == if k < s.len() { s.subrange(k + 1, s.len() as int) } else { Seq::<char>::empty() }
        }),
{
    let cs = chars_of(resolved);
    let n = cs.len();
    let mut k: usize = 0;
    while k < n && cs[k] != '/'
        invariant
            n == cs@.len(),
            k <= n,
            forall|j: int| 0 <= j < k ==> #[trigger] cs@[j] != '/',
        decreases n - k,
    {
        k += 1;
    }
    proof {
        if k < n {
            assert(exists|i: int| 0 <= i < cs@.len() && cs@[i] == '/');
            let c = first_slash(cs@);
            if c < k {
                assert(cs@[c] != '/');
            }
            if c > k {
                assert(cs@[k as int] != '/');
            }
        }
    }
    let ghost d = cs@.subrange(1, k as int);
    let disk = if k >= 3 && cs[1] == '0' && (cs[2] == 'x' || cs[2] == 'X') {
        assert(cs@.subrange(3, k as int) =~= d.subrange(2, d.len() as int));
        match parse_u8_radix(&cs, 3, k, 16) {
            Some(v) => v,
            None => 0xFF,
        }
    } else {
        match parse_u8_radix(&cs, 1, k, 10) {
            Some(v) => v,
            None => match parse_u8_radix(&cs, 1, k, 16) {
                Some(v) => v,
                None => 0xFF,
            },
        }
    };
    let mut rest = String::new();
    if k < n {
        let mut j = k + 1;
        while j < n
            invariant
                n == cs@.len(),
                k < j <= n,
                rest@ == cs@.subrange(k + 1, j as int),
            decreases n - j,
        {
            push_char(&mut rest, cs[j]);
            assert(rest@ =~= cs@.subrange(k + 1, j + 1));
            j += 1;
        }
    } else {
        assert(rest@ =~= Seq::<char>::empty());
    }
    (disk, rest)
}

/// Where a seek leaves a file's offset: from the start (`whence` 0), from the current
/// offset (1) or from the end (2), the 64-bit offsets read as signed; `None` for any other
/// `whence` or a negative result.
pub open spec fn seek_target(whence: usize, offset: i64, current: u64, size: u64) -> Option<u64> {
    let new_offset: int = if whence == 0 {
        offset as int
    } else if whence == 1 {
        (current as i64) + offset
    } else if whence == 2 {
        (size as i64) + offset
    } else {
        -1
    };
    if new_offset >= 0 { Some(new_offset as u64) } else { None }
}

/// A seek lands at the start (`whence` 0), the current offset (1) or the end (2) moved by
/// the signed offset, and is refused exactly when that lands before the start or `whence`
/// is none of these; seeking to where a seek landed, from the start, lands there again.
pub proof fn lemma_seek_lands(whence: usize, offset: i64, current: u64, size: u64)
    requires
        current <= i64::MAX,
        size <= i64::MAX,
    ensures
        whence > 2 ==> seek_target(whence, offset, current, size) is None,
        whence == 0 ==> seek_target(whence, offset, current, size) == (if offset >= 0 { Some(offset as u64) } else { None::<u64> }),
        whence == 1 ==> seek_target(whence, offset, current, size) == (if current + offset >= 0 {
            Some((current + offset) as u64)
        } else {
            None::<u64>
        }),
        whence == 2 ==> seek_target(whence, offset, current, size) == (if size + offset >= 0 {
            Some((size + offset) as u64)
        } else {
            None::<u64>
        }),
        (seek_target(whence, offset, current, size) matches Some(r) ==> (r <= i64::MAX ==> seek_target(0, r as i64, current, size)
            == Some(r))),
{
}

/// Computes the offset a seek moves a file to, as `seek_target` says.
pub fn seek_offset(whence: usize, offset: i64, current: u64, size: u64) -> (r: Option<u64>)
    requires
        whence == 1 ==> i64::MIN <= (current as i64) + offset <= i64::MAX,
        whence == 2 ==> i64::MIN <= (size as i64) + offset <= i64::MAX,
    ensures
        r == seek_target(whence, offset, current, size),
{
    let new_offset: i64 = if whence == 0 {
        offset
    } else if whence == 1 {
        (current as i64) + offset
    } else if whence == 2 {
        (size as i64) + offset
    } else {
        -1
    };
    if new_offset >= 0 { Some(new_offset as u64) } else { None }
}

} // verus!
