use chrono::Datelike;
use vstd::prelude::*;

verus! {

/// The character of a decimal digit.
pub open spec fn digit_char(d: int) -> char {
    if d == 0 { '0' }
    else if d == 1 { '1' }
    else if d == 2 { '2' }
    else if d == 3 { '3' }
    else if d == 4 { '4' }
    else if d == 5 { '5' }
    else if d == 6 { '6' }
    else if d == 7 { '7' }
    else if d == 8 { '8' }
    else { '9' }
}

/// Plain decimal notation of a natural number, without leading zeros.
pub open spec fn decimal(n: nat) -> Seq<char>
    decreases n,
{
    if n < 10 {
        seq![digit_char(n as int)]
    } else {
        decimal(n / 10).push(digit_char((n % 10) as int))
    }
}

/// Decimal notation of an integer, with a leading `-` when it is negative.
pub open spec fn signed_decimal(i: int) -> Seq<char> {
    if i < 0 {
        seq!['-'] + decimal((-i) as nat)
    } else {
        decimal(i as nat)
    }
}

fn digit_str(d: u64) -> (r: &'static str)
    requires
        d < 10,
    ensures
        r@ == seq![digit_char(d as int)],
{
    if d == 0 {
        proof { reveal_strlit("0"); }
        "0"
    } else if d == 1 {
        proof { reveal_strlit("1"); }
        "1"
    } else if d == 2 {
        proof { reveal_strlit("2"); }
        "2"
    } else if d == 3 {
        proof { reveal_strlit("3"); }
        "3"
    } else if d == 4 {
        proof { reveal_strlit("4"); }
        "4"
    } else if d == 5 {
        proof { reveal_strlit("5"); }
        "5"
    } else if d == 6 {
        proof { reveal_strlit("6"); }
        "6"
    } else if d == 7 {
        proof { reveal_strlit("7"); }
        "7"
    } else if d == 8 {
        proof { reveal_strlit("8"); }
        "8"
    } else {
        proof { reveal_strlit("9"); }
        "9"
    }
}

/// Appends the decimal notation of `n` to `out`.
fn push_decimal(out: &mut String, n: u64)
    ensures
        final(out)@ == old(out)@ + decimal(n as nat),
    decreases n,
{
    if n >= 10 {
        push_decimal(out, n / 10);
    }
    out.append(digit_str(n % 10));
    proof {
        if n >= 10 {
            assert(decimal(n as nat) == decimal((n / 10) as nat).push(digit_char((n % 10) as int)));
        }
    }
    assert(final(out)@ =~= old(out)@ + decimal(n as nat));
}


/// Appends the decimal notation of `i`, signed when negative, to `out`.
fn push_signed_decimal(out: &mut String, i: i64)
    ensures
        final(out)@ == old(out)@ + signed_decimal(i as int),
{
    if i < 0 {
        proof { reveal_strlit("-"); }
        out.append("-");
        let m: u64 = if i == i64::MIN { 9223372036854775808u64 } else { (-i) as u64 };
        push_decimal(out, m);
        assert(out@ =~= old(out)@ + signed_decimal(i as int));
    } else {
        push_decimal(out, i as u64);
    }
}

/// `base` followed by the path component `part`, with a single `/` between
/// them unless `base` is empty or already ends in one.
pub open spec fn join(base: Seq<char>, part: Seq<char>) -> Seq<char> {
    if base.len() == 0 || base.last() == '/' {
        base + part
    } else {
        base + seq!['/'] + part
    }
}

/// Appends the path component `part` to `path`.
pub(crate) fn push_component(path: &mut String, part: &str)
    ensures
        final(path)@ == join(old(path)@, part@),
{
    let n = path.as_str().unicode_len();
    if n == 0 || path.as_str().get_char(n - 1) == '/' {
        path.append(part);
    } else {
        proof { reveal_strlit("/"); }
        path.append("/");
        path.append(part);
        assert(path@ =~= join(old(path)@, part@));
    }
}

/// Where the last component of a path begins: just after its last `/`, or
/// at 0 where it has none.
pub open spec fn name_start(p: Seq<char>) -> int
    decreases p.len(),
{
    if p.len() == 0 {
        0
    } else if p.last() == '/' {
        p.len() as int
    } else {
        name_start(p.drop_last())
    }
}

proof fn lemma_name_start_bounds(p: Seq<char>)
    ensures
        0 <= name_start(p) <= p.len(),
        forall|j: int| name_start(p) <= j < p.len() ==> p[j] != '/',
        name_start(p) > 0 ==> p[name_start(p) - 1] == '/',
    decreases p.len(),
{
    if p.len() > 0 && p.last() != '/' {
        lemma_name_start_bounds(p.drop_last());
        assert forall|j: int| name_start(p) <= j < p.len() implies p[j] != '/' by {
            if j < p.len() - 1 {
                assert(p[j] == p.drop_last()[j]);
            }
        }
    }
}

/// The last component of a path: what follows its last `/`.
pub open spec fn file_name(p: Seq<char>) -> Seq<char> {
    p.subrange(name_start(p), p.len() as int)
}

/// Position in `p` of its last component.
fn file_name_start(p: &str) -> (r: usize)
    ensures
        r == name_start(p@),
{
    let mut i = p.unicode_len();
    assert(p@.subrange(0, i as int) =~= p@);
    while i > 0 && p.get_char(i - 1) != '/'
        invariant
            i <= p@.len(),
            name_start(p@) == name_start(p@.subrange(0, i as int)),
        decreases i,
    {
        assert(p@.subrange(0, i as int).drop_last() =~= p@.subrange(0, i - 1));
        i = i - 1;
    }
    if i == 0 {
        assert(p@.subrange(0, 0) =~= Seq::<char>::empty());
    }
    i
}

/// The file name of a path: what follows its last `/`.
pub fn file_name_of(path: &str) -> (r: &str)
    ensures
        r@ == file_name(path@),
{
    proof { lemma_name_start_bounds(path@); }
    let start = file_name_start(path);
    let n = path.unicode_len();
    path.substring_char(start, n)
}

/// The place of a photo in an archive:
/// `root/year/month/model/name`.
pub open spec fn canonical_path(
    root: Seq<char>,
    model: Seq<char>,
    year: int,
    month: int,
    name: Seq<char>,
) -> Seq<char> {
    join(join(join(join(root, signed_decimal(year)), decimal(month as nat)), model), name)
}

/// Where a photo first found at `og_path` is kept in the archive at
/// `db_root`: `db_root/year/month/model/file name`. The file system is not
/// consulted.
pub fn build_final_path(
    db_root: &String,
    model: &String,
    year: &i32,
    month: &u32,
    og_path: &String,
) -> (r: String)
    ensures
        r@ == canonical_path(db_root@, model@, *year as int, *month as int, file_name(og_path@)),
{
    let mut year_part = String::new();
    push_signed_decimal(&mut year_part, *year as i64);
    let mut month_part = String::new();
    push_decimal(&mut month_part, *month as u64);
    let mut r = db_root.clone();
    push_component(&mut r, year_part.as_str());
    push_component(&mut r, month_part.as_str());
    push_component(&mut r, model.as_str());
    push_component(&mut r, file_name_of(og_path.as_str()));
    r
}


proof fn lemma_decimal_shape(n: nat)
    ensures
        decimal(n).len() >= 1,
        forall|i: int| 0 <= i < decimal(n).len() ==> decimal(n)[i] != '/' && decimal(n)[i] != '-',
    decreases n,
{
    if n >= 10 {
        lemma_decimal_shape(n / 10);
    }
}

proof fn lemma_decimal_injective(a: nat, b: nat)
    requires
        decimal(a) == decimal(b),
    ensures
        a == b,
    decreases a,
{
    lemma_decimal_shape(a / 10);
    lemma_decimal_shape(b / 10);
    if a >= 10 && b >= 10 {
        assert(decimal(a).drop_last() =~= decimal(a / 10));
        assert(decimal(b).drop_last() =~= decimal(b / 10));
        assert(decimal(a).last() == digit_char((a % 10) as int));
        assert(decimal(b).last() == digit_char((b % 10) as int));
        assert(a % 10 == b % 10);
        lemma_decimal_injective(a / 10, b / 10);
        assert(a == 10 * (a / 10) + a % 10);
        assert(b == 10 * (b / 10) + b % 10);
        assert(a == b);
    } else if a >= 10 {
        assert(decimal(a).len() >= 2);
        assert(decimal(b).len() == 1);
    } else if b >= 10 {
        assert(decimal(b).len() >= 2);
        assert(decimal(a).len() == 1);
    } else {
        assert(decimal(a)[0] == digit_char(a as int));
        assert(decimal(b)[0] == digit_char(b as int));
        assert(digit_char(a as int) == digit_char(b as int));
    }
}

proof fn lemma_signed_decimal_shape(i: int)
    ensures
        signed_decimal(i).len() >= 1,
        signed_decimal(i).last() != '/',
{
    lemma_decimal_shape((if i < 0 { -i } else { i }) as nat);
}

proof fn lemma_signed_decimal_injective(a: int, b: int)
    requires
        signed_decimal(a) == signed_decimal(b),
    ensures
        a == b,
{
    let da = decimal((if a < 0 { -a } else { a }) as nat);
    let db = decimal((if b < 0 { -b } else { b }) as nat);
    lemma_decimal_shape((if a < 0 { -a } else { a }) as nat);
    lemma_decimal_shape((if b < 0 { -b } else { b }) as nat);
    if a < 0 && b < 0 {
        assert(da =~= signed_decimal(a).subrange(1, signed_decimal(a).len() as int));
        assert(db =~= signed_decimal(b).subrange(1, signed_decimal(b).len() as int));
        lemma_decimal_injective((-a) as nat, (-b) as nat);
    } else if a < 0 {
        assert(signed_decimal(a)[0] == '-');
        assert(db[0] != '-');
    } else if b < 0 {
        assert(signed_decimal(b)[0] == '-');
        assert(da[0] != '-');
    } else {
        lemma_decimal_injective(a as nat, b as nat);
    }
}

proof fn lemma_join_shift(p: Seq<char>, x: Seq<char>, n: Seq<char>)
    requires
        x.len() > 0,
    ensures
        join(p + x, n) =~= p + join(x, n),
{
    assert((p + x).last() == x.last());
}

proof fn lemma_cancel_prefix(p: Seq<char>, x: Seq<char>, y: Seq<char>)
    requires
        p + x == p + y,
    ensures
        x == y,
{
    assert(x =~= (p + x).subrange(p.len() as int, (p + x).len() as int));
    assert(y =~= (p + y).subrange(p.len() as int, (p + y).len() as int));
}

proof fn lemma_cancel_suffix(x: Seq<char>, y: Seq<char>, s: Seq<char>)
    requires
        x + s == y + s,
    ensures
        x == y,
{
    assert((x + s).len() == (y + s).len());
    assert(x =~= (x + s).subrange(0, x.len() as int));
    assert(y =~= (y + s).subrange(0, y.len() as int));
}

/// `root/year/month/model/name` taken apart after its year: the year part,
/// then the rest, which depends on month, model and name alone.
proof fn lemma_canonical_layout(root: Seq<char>, model: Seq<char>, year: int, month: nat, name: Seq<char>)
    ensures
        canonical_path(root, model, year, month as int, name) =~= join(root, signed_decimal(year))
            + (seq!['/'] + decimal(month) + seq!['/'] + join(model, name)),
{
    let y = signed_decimal(year);
    let m = decimal(month);
    lemma_signed_decimal_shape(year);
    lemma_decimal_shape(month);
    let a = join(root, y);
    assert(a.last() == y.last());
    assert(join(a, m) =~= a + seq!['/'] + m);
    let p = a + seq!['/'];
    lemma_join_shift(p, m, model);
    assert(join(m, model) =~= m + seq!['/'] + model);
    let q = a + seq!['/'] + m + seq!['/'];
    if model.len() > 0 {
        lemma_join_shift(q, model, name);
    } else {
        assert(join(q + model, name) =~= q + name);
    }
}

/// Two arguments of placement are the same where two calls differ in
/// another one alone.
proof fn lemma_join_injective_left(a: Seq<char>, b: Seq<char>, n: Seq<char>)
    requires
        join(a, n) == join(b, n),
        a.len() == 0 || a.last() != '/',
        b.len() == 0 || b.last() != '/',
    ensures
        a == b,
{
    if a.len() > 0 && b.len() > 0 {
        assert(a + seq!['/'] + n =~= a + (seq!['/'] + n));
        assert(b + seq!['/'] + n =~= b + (seq!['/'] + n));
        lemma_cancel_suffix(a, b, seq!['/'] + n);
    } else if a.len() > 0 {
        assert((a + seq!['/'] + n).len() > n.len());
    } else if b.len() > 0 {
        assert((b + seq!['/'] + n).len() > n.len());
    }
}

proof fn lemma_join_injective_right(a: Seq<char>, x: Seq<char>, y: Seq<char>)
    requires
        join(a, x) == join(a, y),
    ensures
        x == y,
{
    if a.len() == 0 || a.last() == '/' {
        lemma_cancel_prefix(a, x, y);
    } else {
        lemma_cancel_prefix(a + seq!['/'], x, y);
    }
}

/// Placement depends on nothing but its arguments: two calls with the same
/// archive root, model, year, month and file name give the same path.
pub proof fn lemma_placement_is_pure(
    root1: Seq<char>,
    root2: Seq<char>,
    model1: Seq<char>,
    model2: Seq<char>,
    year1: int,
    year2: int,
    month1: int,
    month2: int,
    name1: Seq<char>,
    name2: Seq<char>,
)
    requires
        root1 == root2,
        model1 == model2,
        year1 == year2,
        month1 == month2,
        name1 == name2,
    ensures
        canonical_path(root1, model1, year1, month1, name1) == canonical_path(root2, model2, year2, month2, name2),
{
}

/// Placement tells archive roots apart: two roots, neither ending in `/`,
/// give two different paths for the same photo.
pub proof fn lemma_placement_separates_roots(
    root1: Seq<char>,
    root2: Seq<char>,
    model: Seq<char>,
    year: int,
    month: nat,
    name: Seq<char>,
)
    requires
        root1 != root2,
        root1.len() == 0 || root1.last() != '/',
        root2.len() == 0 || root2.last() != '/',
    ensures
        canonical_path(root1, model, year, month as int, name) != canonical_path(root2, model, year, month as int, name),
{
    lemma_canonical_layout(root1, model, year, month, name);
    lemma_canonical_layout(root2, model, year, month, name);
    if canonical_path(root1, model, year, month as int, name) == canonical_path(root2, model, year, month as int, name) {
        let t = seq!['/'] + decimal(month) + seq!['/'] + join(model, name);
        lemma_cancel_suffix(join(root1, signed_decimal(year)), join(root2, signed_decimal(year)), t);
        lemma_signed_decimal_shape(year);
        assert(join(root1, signed_decimal(year)) == join(root2, signed_decimal(year)));
        if root1.len() > 0 && root2.len() > 0 {
            assert(join(root1, signed_decimal(year)) == root1 + seq!['/'] + signed_decimal(year));
            assert(join(root2, signed_decimal(year)) == root2 + seq!['/'] + signed_decimal(year));
            assert(root1 + seq!['/'] + signed_decimal(year) =~= root1 + (seq!['/'] + signed_decimal(year)));
            assert(root2 + seq!['/'] + signed_decimal(year) =~= root2 + (seq!['/'] + signed_decimal(year)));
            lemma_cancel_suffix(root1, root2, seq!['/'] + signed_decimal(year));
        } else if root1.len() > 0 {
            assert(join(root1, signed_decimal(year)).len() > signed_decimal(year).len());
            assert(join(root2, signed_decimal(year)) =~= signed_decimal(year));
        } else if root2.len() > 0 {
            assert(join(root2, signed_decimal(year)).len() > signed_decimal(year).len());
            assert(join(root1, signed_decimal(year)) =~= signed_decimal(year));
        } else {
            assert(root1 =~= root2);
        }
    }
}

/// Placement tells years apart.
pub proof fn lemma_placement_separates_years(
    root: Seq<char>,
    model: Seq<char>,
    year1: int,
    year2: int,
    month: nat,
    name: Seq<char>,
)
    requires
        year1 != year2,
    ensures
        canonical_path(root, model, year1, month as int, name) != canonical_path(root, model, year2, month as int, name),
{
    lemma_canonical_layout(root, model, year1, month, name);
    lemma_canonical_layout(root, model, year2, month, name);
    if canonical_path(root, model, year1, month as int, name) == canonical_path(root, model, year2, month as int, name) {
        let t = seq!['/'] + decimal(month) + seq!['/'] + join(model, name);
        lemma_cancel_suffix(join(root, signed_decimal(year1)), join(root, signed_decimal(year2)), t);
        lemma_join_injective_right(root, signed_decimal(year1), signed_decimal(year2));
        lemma_signed_decimal_injective(year1, year2);
    }
}

/// Placement tells months apart.
pub proof fn lemma_placement_separates_months(
    root: Seq<char>,
    model: Seq<char>,
    year: int,
    month1: nat,
    month2: nat,
    name: Seq<char>,
)
    requires
        month1 != month2,
    ensures
        canonical_path(root, model, year, month1 as int, name) != canonical_path(root, model, year, month2 as int, name),
{
    lemma_canonical_layout(root, model, year, month1, name);
    lemma_canonical_layout(root, model, year, month2, name);
    if canonical_path(root, model, year, month1 as int, name) == canonical_path(root, model, year, month2 as int, name) {
        let a = join(root, signed_decimal(year)) + seq!['/'];
        let j = seq!['/'] + join(model, name);
        assert(canonical_path(root, model, year, month1 as int, name) =~= a + (decimal(month1) + j));
        assert(canonical_path(root, model, year, month2 as int, name) =~= a + (decimal(month2) + j));
        lemma_cancel_prefix(a, decimal(month1) + j, decimal(month2) + j);
        lemma_cancel_suffix(decimal(month1), decimal(month2), j);
        lemma_decimal_injective(month1, month2);
    }
}

/// Placement tells camera models apart: two models, neither ending in `/`,
/// give two different paths.
pub proof fn lemma_placement_separates_models(
    root: Seq<char>,
    model1: Seq<char>,
    model2: Seq<char>,
    year: int,
    month: nat,
    name: Seq<char>,
)
    requires
        model1 != model2,
        model1.len() == 0 || model1.last() != '/',
        model2.len() == 0 || model2.last() != '/',
    ensures
        canonical_path(root, model1, year, month as int, name) != canonical_path(root, model2, year, month as int, name),
{
    lemma_canonical_layout(root, model1, year, month, name);
    lemma_canonical_layout(root, model2, year, month, name);
    if canonical_path(root, model1, year, month as int, name) == canonical_path(root, model2, year, month as int, name) {
        let a = join(root, signed_decimal(year)) + seq!['/'] + decimal(month) + seq!['/'];
        assert(canonical_path(root, model1, year, month as int, name) =~= a + join(model1, name));
        assert(canonical_path(root, model2, year, month as int, name) =~= a + join(model2, name));
        lemma_cancel_prefix(a, join(model1, name), join(model2, name));
        lemma_join_injective_left(model1, model2, name);
    }
}

/// Placement tells file names apart.
pub proof fn lemma_placement_separates_names(
    root: Seq<char>,
    model: Seq<char>,
    year: int,
    month: nat,
    name1: Seq<char>,
    name2: Seq<char>,
)
    requires
        name1 != name2,
    ensures
        canonical_path(root, model, year, month as int, name1) != canonical_path(root, model, year, month as int, name2),
{
    lemma_canonical_layout(root, model, year, month, name1);
    lemma_canonical_layout(root, model, year, month, name2);
    if canonical_path(root, model, year, month as int, name1) == canonical_path(root, model, year, month as int, name2) {
        let a = join(root, signed_decimal(year)) + seq!['/'] + decimal(month) + seq!['/'];
        assert(canonical_path(root, model, year, month as int, name1) =~= a + join(model, name1));
        assert(canonical_path(root, model, year, month as int, name2) =~= a + join(model, name2));
        lemma_cancel_prefix(a, join(model, name1), join(model, name2));
        lemma_join_injective_right(model, name1, name2);
    }
}


/// `c` with an ASCII capital letter made small; other characters unchanged.
pub open spec fn ascii_lower(c: char) -> char {
    if 'A' <= c && c <= 'Z' {
        ((c as u32 + 32) as u8) as char
    } else {
        c
    }
}

fn to_ascii_lower(c: char) -> (r: char)
    ensures
        r == ascii_lower(c),
{
    if 'A' <= c && c <= 'Z' {
        ((c as u32 + 32) as u8) as char
    } else {
        c
    }
}


/// Position of the last `.` in `s`, or -1 where it has none.
pub open spec fn last_dot(s: Seq<char>) -> int
    decreases s.len(),
{
    if s.len() == 0 {
        -1
    } else if s.last() == '.' {
        s.len() - 1
    } else {
        last_dot(s.drop_last())
    }
}

proof fn lemma_last_dot_bounds(s: Seq<char>)
    ensures
        -1 <= last_dot(s) < s.len(),
        last_dot(s) >= 0 ==> s[last_dot(s)] == '.',
    decreases s.len(),
{
    if s.len() > 0 && s.last() != '.' {
        lemma_last_dot_bounds(s.drop_last());
    }
}

/// The extension of a path: what follows the last `.` of its file name,
/// where that `.` is not the name's first character.
pub open spec fn extension(p: Seq<char>) -> Option<Seq<char>> {
    let name = file_name(p);
    let d = last_dot(name);
    if d > 0 {
        Some(name.subrange(d + 1, name.len() as int))
    } else {
        None
    }
}

/// `s` with its ASCII capitals made small.
pub open spec fn lowered(s: Seq<char>) -> Seq<char> {
    s.map_values(|c: char| ascii_lower(c))
}

/// The extensions of the RAW formats that are catalogued, compared without
/// regard to ASCII case.
pub open spec fn is_raw_extension(e: Seq<char>) -> bool {
    let l = lowered(e);
    l == seq!['3', 'f', 'r']
        || l == seq!['a', 'r', 'w']
        || l == seq!['c', 'r', '2']
        || l == seq!['f', 'f', 'f']
        || l == seq!['m', 'e', 'f']
        || l == seq!['m', 'o', 's']
        || l == seq!['i', 'i', 'q']
        || l == seq!['n', 'e', 'f']
        || l == seq!['r', 'a', 'f']
        || l == seq!['r', 'w', '2']
        || l == seq!['d', 'n', 'g']
}

/// A hidden file: its name begins with a `.`.
pub open spec fn is_hidden(p: Seq<char>) -> bool {
    file_name(p).len() > 0 && file_name(p)[0] == '.'
}

/// A path names a RAW image to catalogue: it is not hidden and its
/// extension is one of the RAW formats.
pub open spec fn is_image_path(p: Seq<char>) -> bool {
    !is_hidden(p) && match extension(p) {
        Some(e) => is_raw_extension(e),
        None => false,
    }
}

/// Whether `p` from `from` on, with ASCII capitals made small, is `w`.
fn lowered_equals(p: &str, from: usize, w: &str) -> (r: bool)
    requires
        from <= p@.len(),
    ensures
        r == (lowered(p@.subrange(from as int, p@.len() as int)) == w@),
{
    let ghost tail = lowered(p@.subrange(from as int, p@.len() as int));
    let n = p.unicode_len();
    let m = w.unicode_len();
    if n - from != m {
        assert(tail.len() != w@.len());
        return false;
    }
    let mut j: usize = 0;
    while j < m
        invariant
            n == p@.len(),
            m == w@.len(),
            n - from == m,
            tail == lowered(p@.subrange(from as int, p@.len() as int)),
            j <= m,
            forall|k: int| 0 <= k < j ==> tail[k] == w@[k],
        decreases m - j,
    {
        if to_ascii_lower(p.get_char(from + j)) != w.get_char(j) {
            assert(tail[j as int] != w@[j as int]);
            return false;
        }
        j = j + 1;
    }
    assert(tail =~= w@);
    true
}

/// Whether `path` names a RAW image to catalogue: its file name is not
/// hidden and its extension is that of a RAW format, in any ASCII case.
/// The file system is not consulted.
pub fn is_image_file(path: &String) -> (r: bool)
    ensures
        r == is_image_path(path@),
{
    let p = path.as_str();
    proof {
        lemma_name_start_bounds(p@);
    }
    let start = file_name_start(p);
    let n = p.unicode_len();
    let ghost name = file_name(p@);
    if start < n && p.get_char(start) == '.' {
        assert(name[0] == '.');
        return false;
    }
    assert(!is_hidden(p@));
    let mut i = n;
    assert(name.subrange(0, (i - start) as int) =~= name);
    while i > start && p.get_char(i - 1) != '.'
        invariant
            start <= i <= n,
            n == p@.len(),
            start == name_start(p@),
            name == p@.subrange(start as int, n as int),
            last_dot(name) == last_dot(name.subrange(0, (i - start) as int)),
        decreases i,
    {
        assert(name.subrange(0, (i - start) as int).drop_last() =~= name.subrange(0, (i - 1 - start) as int));
        i = i - 1;
    }
    if i == start {
        assert(name.subrange(0, 0) =~= Seq::<char>::empty());
    }
    assert(last_dot(name) == (i - start) as int - 1);
    if i - start <= 1 {
        assert(extension(p@) is None);
        return false;
    }
    assert(extension(p@) == Some(p@.subrange(i as int, n as int)));
    proof {
        reveal_strlit("3fr");
        assert("3fr"@ =~= seq!['3', 'f', 'r']);
        reveal_strlit("arw");
        assert("arw"@ =~= seq!['a', 'r', 'w']);
        reveal_strlit("cr2");
        assert("cr2"@ =~= seq!['c', 'r', '2']);
        reveal_strlit("fff");
        assert("fff"@ =~= seq!['f', 'f', 'f']);
        reveal_strlit("mef");
        assert("mef"@ =~= seq!['m', 'e', 'f']);
        reveal_strlit("mos");
        assert("mos"@ =~= seq!['m', 'o', 's']);
        reveal_strlit("iiq");
        assert("iiq"@ =~= seq!['i', 'i', 'q']);
        reveal_strlit("nef");
        assert("nef"@ =~= seq!['n', 'e', 'f']);
        reveal_strlit("raf");
        assert("raf"@ =~= seq!['r', 'a', 'f']);
        reveal_strlit("rw2");
        assert("rw2"@ =~= seq!['r', 'w', '2']);
        reveal_strlit("dng");
        assert("dng"@ =~= seq!['d', 'n', 'g']);
        assert(name.subrange(last_dot(name) + 1, name.len() as int) =~= p@.subrange(i as int, n as int));
    }
    lowered_equals(p, i, "3fr")
        || lowered_equals(p, i, "arw")
        || lowered_equals(p, i, "cr2")
        || lowered_equals(p, i, "fff")
        || lowered_equals(p, i, "mef")
        || lowered_equals(p, i, "mos")
        || lowered_equals(p, i, "iiq")
        || lowered_equals(p, i, "nef")
        || lowered_equals(p, i, "raf")
        || lowered_equals(p, i, "rw2")
        || lowered_equals(p, i, "dng")
}


/// What chrono reads in `text` laid out as `format`: the year and month of
/// the date and time written there, or nothing where it does not fit.
pub uninterp spec fn chrono_year_month(text: Seq<char>, format: Seq<char>) -> Option<(i32, u32)>;

/// Relies on chrono's `NaiveDateTime::parse_from_str`, which reads a date
/// and time out of `text` laid out as `format`, and on `Datelike::year` and
/// `Datelike::month` of what it read; a month lies between 1 and 12.
#[verifier::external_body]
fn parse_year_month(text: &str, format: &str) -> (r: Option<(i32, u32)>)
    ensures
        r == chrono_year_month(text@, format@),
        r matches Some((_, m)) ==> 1 <= m <= 12,
{
    match chrono::NaiveDateTime::parse_from_str(text, format) {
        Ok(d) => Some((d.year(), d.month())),
        Err(_) => None,
    }
}

/// How many layouts of a capture time are tried.
pub const DATE_FORMAT_COUNT: usize = 6;

/// The layouts in which cameras write a capture time, in the order tried.
pub open spec fn date_formats() -> Seq<Seq<char>> {
    seq![
        "%Y-%m-%d %H:%M:%S"@,
        "%Y:%m:%d %H:%M:%S"@,
        "%Y:%m:%dT%H:%M:%S"@,
        "%Y-%m-%dT%H:%M:%S"@,
        "%Y-%m-%dT%H:%M:%SZ"@,
        "%Y:%m:%d %H:%M"@,
    ]
}

fn date_format(k: usize) -> (r: &'static str)
    requires
        k < DATE_FORMAT_COUNT,
    ensures
        r@ == date_formats()[k as int],
{
    if k == 0 {
        "%Y-%m-%d %H:%M:%S"
    } else if k == 1 {
        "%Y:%m:%d %H:%M:%S"
    } else if k == 2 {
        "%Y:%m:%dT%H:%M:%S"
    } else if k == 3 {
        "%Y-%m-%dT%H:%M:%S"
    } else if k == 4 {
        "%Y-%m-%dT%H:%M:%SZ"
    } else {
        "%Y:%m:%d %H:%M"
    }
}

/// Year and month read from `text` in the first layout, from the `k`-th
/// on, that fits it.
pub open spec fn date_in_formats(text: Seq<char>, k: nat) -> Option<(i32, u32)>
    decreases DATE_FORMAT_COUNT - k,
{
    if k >= DATE_FORMAT_COUNT {
        None
    } else {
        match chrono_year_month(text, date_formats()[k as int]) {
            Some(d) => Some(d),
            None => date_in_formats(text, k + 1),
        }
    }
}

/// Year and month of the first capture time in `tags` that reads as a
/// date in one of the layouts.
pub open spec fn first_date(tags: Seq<String>) -> Option<(i32, u32)>
    decreases tags.len(),
{
    if tags.len() == 0 {
        None
    } else {
        match date_in_formats(tags[0]@, 0) {
            Some(d) => Some(d),
            None => first_date(tags.drop_first()),
        }
    }
}

fn date_of_tag(text: &str) -> (r: Option<(i32, u32)>)
    ensures
        r == date_in_formats(text@, 0),
        r matches Some((_, m)) ==> 1 <= m <= 12,
{
    let mut k: usize = 0;
    while k < DATE_FORMAT_COUNT
        invariant
            k <= DATE_FORMAT_COUNT,
            date_in_formats(text@, 0) == date_in_formats(text@, k as nat),
        decreases DATE_FORMAT_COUNT - k,
    {
        let d = parse_year_month(text, date_format(k));
        if d.is_some() {
            return d;
        }
        k = k + 1;
    }
    None
}

/// The capture date of a photo, as year and month: from the first of the
/// capture-time `tags` (in order of preference) that reads as a date in
/// one of the known layouts; nothing where none does.
pub fn get_date(tags: &Vec<String>) -> (r: Option<(i32, u32)>)
    ensures
        r == first_date(tags@),
        r matches Some((_, m)) ==> 1 <= m <= 12,
{
    let mut i: usize = 0;
    assert(tags@.subrange(0, tags@.len() as int) =~= tags@);
    while i < tags.len()
        invariant
            i <= tags@.len(),
            first_date(tags@) == first_date(tags@.subrange(i as int, tags@.len() as int)),
        decreases tags@.len() - i,
    {
        let ghost rest = tags@.subrange(i as int, tags@.len() as int);
        assert(rest.drop_first() =~= tags@.subrange(i + 1, tags@.len() as int));
        let d = date_of_tag(tags[i].as_str());
        if d.is_some() {
            return d;
        }
        i = i + 1;
    }
    None
}

} // verus!
