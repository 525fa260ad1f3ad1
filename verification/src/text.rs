//! Text building blocks: decimal rendering with Rust's zero-padding rules.

use vstd::prelude::*;

verus! {

/// The ASCII digit for `d` (expected `d < 10`).
pub open spec fn digit_char(d: nat) -> char {
    (48 + d) as char
}

/// Decimal rendering of a natural number, most significant digit first,
/// without leading zeros (as `Display` renders unsigned integers).
pub open spec fn dec_digits(n: nat) -> Seq<char>
    decreases n,
{
    if n < 10 {
        seq![digit_char(n)]
    } else {
        dec_digits(n / 10).push(digit_char(n % 10))
    }
}

/// `s` preceded by as many `'0'` as needed to reach `width` characters.
pub open spec fn zero_pad(s: Seq<char>, width: nat) -> Seq<char> {
    if s.len() >= width {
        s
    } else {
        Seq::new((width - s.len()) as nat, |i: int| '0') + s
    }
}

/// Rendering of an integer as `format!("{:0width$}", v)` does it: the sign
/// comes first and the zeros go between the sign and the digits.
pub open spec fn int_padded(v: int, width: nat) -> Seq<char> {
    if v < 0 {
        seq!['-'] + zero_pad(dec_digits((-v) as nat), if width > 0 { (width - 1) as nat } else { 0 })
    } else {
        zero_pad(dec_digits(v as nat), width)
    }
}

/// Rendering of an integer as `format!("{}", v)`.
pub open spec fn int_text(v: int) -> Seq<char> {
    int_padded(v, 0)
}

/// Appends one character (`String::push`).
#[verifier::external_body]
pub(crate) fn push_char(s: &mut String, c: char)
    ensures
        final(s)@ == old(s)@.push(c),
{
    s.push(c);
}

/// Appends a string slice.
pub fn push_str(s: &mut String, t: &str)
    ensures
        final(s)@ == old(s)@ + t@,
{
    s.append(t);
}

/// Whether two string slices hold the same text.
pub fn str_eq(a: &str, b: &str) -> (r: bool)
    ensures
        r == (a@ == b@),
{
    String::from_str(a) == String::from_str(b)
}

/// The option's string contents as plain text.
pub open spec fn opt_text(o: Option<String>) -> Option<Seq<char>> {
    match o {
        Some(s) => Some(s@),
        None => None,
    }
}

/// Whether `s` begins with `prefix`.
pub fn starts_with(s: &str, prefix: &str) -> (r: bool)
    ensures
        r == prefix@.is_prefix_of(s@),
{
    let n = prefix.unicode_len();
    if n > s.unicode_len() {
        return false;
    }
    let mut i: usize = 0;
    while i < n
        invariant
            n == prefix@.len(),
            n <= s@.len(),
            i <= n,
            forall|k: int| 0 <= k < i ==> s@[k] == prefix@[k],
        decreases n - i,
    {
        if s.get_char(i) != prefix.get_char(i) {
            assert(prefix@[i as int] != s@.subrange(0, n as int)[i as int]);
            return false;
        }
        i = i + 1;
    }
    assert(prefix@ =~= s@.subrange(0, n as int));
    true
}

/// The lowercase form of a text as `str::to_lowercase` computes it (the
/// Unicode lowercase mapping).
pub uninterp spec fn lowercase(s: Seq<char>) -> Seq<char>;

/// `str::to_lowercase`. The result is named `lowercase`; the Unicode
/// mapping itself is not written out.
#[verifier::external_body]
pub(crate) fn to_lowercase(s: &str) -> (r: String)
    ensures
        r@ == lowercase(s@),
{
    s.to_lowercase()
}

/// The uppercase form of a text as `str::to_uppercase` computes it (the
/// Unicode uppercase mapping).
pub uninterp spec fn uppercase(s: Seq<char>) -> Seq<char>;

/// `str::to_uppercase`. The result is named `uppercase`; the Unicode
/// mapping itself is not written out.
#[verifier::external_body]
pub(crate) fn to_uppercase(s: &str) -> (r: String)
    ensures
        r@ == uppercase(s@),
{
    s.to_uppercase()
}

/// Appends the decimal digits of `n`.
pub fn push_dec(s: &mut String, n: u64)
    ensures
        final(s)@ == old(s)@ + dec_digits(n as nat),
    decreases n,
{
    if n >= 10 {
        push_dec(s, n / 10);
    }
    let d = (n % 10) as u8;
    let c = (48u8 + d) as char;
    push_char(s, c);
}


/// `10` to the power `k`.
pub open spec fn pow10(k: nat) -> nat
    decreases k,
{
    if k == 0 {
        1
    } else {
        10 * pow10((k - 1) as nat)
    }
}

/// A number below `10^k` (with `k >= 1`) has at most `k` decimal digits.
pub proof fn lemma_dec_digits_len_bound(n: nat, k: nat)
    requires
        k >= 1,
        n < pow10(k),
    ensures
        1 <= dec_digits(n).len() <= k,
    decreases n,
{
    if n >= 10 {
        assert(k >= 2) by {
            if k == 1 {
                assert(pow10(1) == 10) by { reveal_with_fuel(pow10, 2); }
            }
        }
        assert(n / 10 < pow10((k - 1) as nat));
        lemma_dec_digits_len_bound(n / 10, (k - 1) as nat);
    }
}

/// Number of decimal digits of `n`.
pub fn dec_len(n: u64) -> (r: usize)
    ensures
        r as nat == dec_digits(n as nat).len(),
    decreases n,
{
    proof {
        assert(pow10(20) == 100000000000000000000nat) by { reveal_with_fuel(pow10, 21); }
        lemma_dec_digits_len_bound(n as nat, 20);
    }
    if n >= 10 {
        dec_len(n / 10) + 1
    } else {
        1
    }
}

/// Appends `count` zeros.
pub fn push_zeros(s: &mut String, count: usize)
    ensures
        final(s)@ == old(s)@ + Seq::new(count as nat, |i: int| '0'),
{
    let mut k: usize = 0;
    while k < count
        invariant
            k <= count,
            s@ == old(s)@ + Seq::new(k as nat, |i: int| '0'),
        decreases count - k,
    {
        push_char(s, '0');
        k = k + 1;
        assert(s@ =~= old(s)@ + Seq::new(k as nat, |i: int| '0'));
    }
}

/// Appends `n` zero-padded to `width` characters.
pub fn push_dec_padded(s: &mut String, n: u64, width: usize)
    ensures
        final(s)@ == old(s)@ + zero_pad(dec_digits(n as nat), width as nat),
{
    let len = dec_len(n);
    let ghost before = s@;
    if len < width {
        push_zeros(s, width - len);
    }
    push_dec(s, n);
    assert(s@ =~= before + zero_pad(dec_digits(n as nat), width as nat));
}

/// Appends `v` as `format!("{:0width$}", v)` renders it.
pub fn push_int_padded(s: &mut String, v: i64, width: usize)
    ensures
        final(s)@ == old(s)@ + int_padded(v as int, width as nat),
{
    let ghost before = s@;
    if v < 0 {
        push_char(s, '-');
        let mag: u64 = (0i128 - v as i128) as u64;
        let w: usize = if width > 0 { width - 1 } else { 0 };
        push_dec_padded(s, mag, w);
        assert(s@ =~= before + int_padded(v as int, width as nat));
    } else {
        push_dec_padded(s, v as u64, width);
    }
}

/// Appends `v` as `format!("{}", v)` renders it.
pub fn push_int(s: &mut String, v: i64)
    ensures
        final(s)@ == old(s)@ + int_text(v as int),
{
    push_int_padded(s, v, 0);
}


/// The characters of a string slice.
pub fn chars_of(s: &str) -> (r: Vec<char>)
    ensures
        r@ == s@,
{
    let n = s.unicode_len();
    let mut out: Vec<char> = Vec::new();
    let mut i: usize = 0;
    while i < n
        invariant
            n == s@.len(),
            i <= n,
            out@ == s@.take(i as int),
        decreases n - i,
    {
        out.push(s.get_char(i));
        i = i + 1;
        assert(out@ =~= s@.take(i as int));
    }
    assert(s@.take(n as int) =~= s@);
    out
}

/// A string holding the given characters.
pub fn string_of(cs: &Vec<char>) -> (r: String)
    ensures
        r@ == cs@,
{
    let mut out = String::new();
    let mut i: usize = 0;
    while i < cs.len()
        invariant
            i <= cs@.len(),
            out@ == cs@.take(i as int),
        decreases cs.len() - i,
    {
        push_char(&mut out, cs[i]);
        i = i + 1;
        assert(out@ =~= cs@.take(i as int));
    }
    assert(cs@.take(cs@.len() as int) =~= cs@);
    out
}

/// `needle` occurs in `hay` as a contiguous piece (the empty text occurs
/// everywhere).
pub open spec fn has_substring(hay: Seq<char>, needle: Seq<char>) -> bool {
    exists|i: int| 0 <= i && i + needle.len() <= hay.len() && #[trigger] hay.subrange(i, i + needle.len()) == needle
}

/// `needle` occurs in `hay` at position `at`.
fn matches_at(hay: &Vec<char>, needle: &Vec<char>, at: usize) -> (r: bool)
    requires
        at + needle@.len() <= hay@.len(),
    ensures
        r == (hay@.subrange(at as int, at + needle@.len()) == needle@),
{
    let hl = hay.len();
    let mut j: usize = 0;
    while j < needle.len()
        invariant
            hl == hay@.len(),
            j <= needle@.len(),
            at + needle@.len() <= hay@.len(),
            forall|k: int| 0 <= k < j ==> hay@[at + k] == needle@[k],
        decreases needle.len() - j,
    {
        if hay[at + j] != needle[j] {
            assert(hay@.subrange(at as int, at + needle@.len())[j as int] != needle@[j as int]);
            return false;
        }
        j = j + 1;
    }
    assert(hay@.subrange(at as int, at + needle@.len()) =~= needle@);
    true
}

/// Whether `needle` occurs in `hay` (`str::contains` with a string pattern).
pub fn contains_chars(hay: &Vec<char>, needle: &Vec<char>) -> (r: bool)
    ensures
        r == has_substring(hay@, needle@),
{
    if needle.len() > hay.len() {
        return false;
    }
    if needle.len() == 0 {
        assert(hay@.subrange(0int, 0int + needle@.len()) =~= needle@);
        return true;
    }
    let hl = hay.len();
    let last = hay.len() - needle.len();
    let mut i: usize = 0;
    while i <= last
        invariant
            hl == hay@.len(),
            last < hay@.len(),
            last + needle@.len() == hay@.len(),
            i <= last + 1,
            forall|k: int| 0 <= k < i ==> #[trigger] hay@.subrange(k, k + needle@.len()) != needle@,
        decreases last + 1 - i,
    {
        if matches_at(hay, needle, i) {
            return true;
        }
        i = i + 1;
    }
    false
}

/// Whether `c` occurs in `s`.
pub fn contains_char(s: &Vec<char>, c: char) -> (r: bool)
    ensures
        r == s@.contains(c),
{
    let mut i: usize = 0;
    while i < s.len()
        invariant
            i <= s@.len(),
            forall|k: int| 0 <= k < i ==> s@[k] != c,
        decreases s.len() - i,
    {
        if s[i] == c {
            return true;
        }
        i = i + 1;
    }
    false
}

/// The pieces of `s` between occurrences of `sep`, as `str::split` with a
/// character pattern yields them (an empty text gives one empty piece).
pub open spec fn split_on(s: Seq<char>, sep: char) -> Seq<Seq<char>>
    decreases s.len(),
{
    if s.len() == 0 {
        seq![Seq::<char>::empty()]
    } else {
        let prev = split_on(s.drop_last(), sep);
        if s.last() == sep {
            prev.push(Seq::<char>::empty())
        } else {
            prev.update(prev.len() - 1, prev.last().push(s.last()))
        }
    }
}

/// Text without the separator is one piece.
pub proof fn lemma_split_on_single(x: Seq<char>, sep: char)
    requires
        !x.contains(sep),
    ensures
        split_on(x, sep) == seq![x],
    decreases x.len(),
{
    if x.len() > 0 {
        let init = x.drop_last();
        assert forall|c: char| init.contains(c) implies x.contains(c) by {
            let i = choose|i: int| 0 <= i < init.len() && init[i] == c;
            assert(x[i] == c);
        }
        lemma_split_on_single(init, sep);
        assert(x.contains(x.last()));
        assert(init.push(x.last()) =~= x);
        assert(split_on(x, sep) =~= seq![x]);
    } else {
        assert(x =~= Seq::<char>::empty());
    }
}

/// Splitting text joined at a separator gives the pieces of each side.
pub proof fn lemma_split_on_join(a: Seq<char>, b: Seq<char>, sep: char)
    ensures
        split_on(a + seq![sep] + b, sep) == split_on(a, sep) + split_on(b, sep),
    decreases b.len(),
{
    let s = a + seq![sep] + b;
    lemma_split_on_nonempty(a, sep);
    if b.len() == 0 {
        assert(s =~= a.push(sep));
        assert(s.drop_last() =~= a);
        assert(split_on(b, sep) =~= seq![Seq::<char>::empty()]);
        assert(split_on(s, sep) =~= split_on(a, sep) + split_on(b, sep));
    } else {
        let bi = b.drop_last();
        lemma_split_on_join(a, bi, sep);
        lemma_split_on_nonempty(bi, sep);
        assert(s.drop_last() =~= a + seq![sep] + bi);
        assert(s.last() == b.last());
        let pa = split_on(a, sep);
        let q = split_on(bi, sep);
        if b.last() == sep {
            assert(split_on(s, sep) =~= pa + split_on(b, sep));
        } else {
            assert((pa + q).update(pa.len() + q.len() - 1, (pa + q).last().push(b.last()))
                =~= pa + q.update(q.len() - 1, q.last().push(b.last())));
            assert(split_on(s, sep) =~= pa + split_on(b, sep));
        }
    }
}

/// The pieces of a text split at a separator: joining them back with the
/// separator gives the text, and no piece holds the separator.
pub proof fn law_split_on_pieces(a: Seq<char>, b: Seq<char>, sep: char)
    ensures
        split_on(a + seq![sep] + b, sep) == split_on(a, sep) + split_on(b, sep),
        !a.contains(sep) ==> split_on(a, sep) == seq![a],
{
    lemma_split_on_join(a, b, sep);
    if !a.contains(sep) {
        lemma_split_on_single(a, sep);
    }
}

/// `split_on` always yields at least one piece.
pub proof fn lemma_split_on_nonempty(s: Seq<char>, sep: char)
    ensures
        split_on(s, sep).len() >= 1,
    decreases s.len(),
{
    if s.len() > 0 {
        lemma_split_on_nonempty(s.drop_last(), sep);
    }
}

/// Pieces as plain text.
pub open spec fn pieces_view(p: Seq<Vec<char>>) -> Seq<Seq<char>> {
    p.map_values(|v: Vec<char>| v@)
}

/// Splits `s` at each `sep`.
pub fn split_chars(s: &Vec<char>, sep: char) -> (r: Vec<Vec<char>>)
    ensures
        pieces_view(r@) == split_on(s@, sep),
{
    let mut pieces: Vec<Vec<char>> = Vec::new();
    let mut cur: Vec<char> = Vec::new();
    let mut i: usize = 0;
    while i < s.len()
        invariant
            i <= s@.len(),
            pieces_view(pieces@).push(cur@) == split_on(s@.take(i as int), sep),
        decreases s.len() - i,
    {
        let c = s[i];
        let ghost prev = split_on(s@.take(i as int), sep);
        proof {
            assert(s@.take(i + 1).drop_last() =~= s@.take(i as int));
            lemma_split_on_nonempty(s@.take(i as int), sep);
        }
        if c == sep {
            let done = cur;
            pieces.push(done);
            cur = Vec::new();
            assert(pieces_view(pieces@).push(cur@) =~= prev.push(Seq::<char>::empty()));
        } else {
            let ghost old_cur = cur@;
            cur.push(c);
            assert(pieces_view(pieces@).push(cur@) =~= prev.update(prev.len() - 1, prev.last().push(c)));
        }
        i = i + 1;
    }
    assert(s@.take(s@.len() as int) =~= s@);
    pieces.push(cur);
    pieces
}


/// `s` with every `"` doubled.
pub open spec fn double_quotes(s: Seq<char>) -> Seq<char>
    decreases s.len(),
{
    if s.len() == 0 {
        seq![]
    } else {
        double_quotes(s.drop_last()) + if s.last() == '"' { seq!['"', '"'] } else { seq![s.last()] }
    }
}

/// A CSV field: wrapped in quotes, with inner quotes doubled, when it holds
/// a comma, a quote or a line feed (or, when `quote_on_cr`, a carriage
/// return); as it is otherwise.
pub open spec fn csv_field(s: Seq<char>, quote_on_cr: bool) -> Seq<char> {
    if s.contains(',') || s.contains('"') || s.contains('\n') || (quote_on_cr && s.contains('\r')) {
        seq!['"'] + double_quotes(s) + seq!['"']
    } else {
        s
    }
}

/// A quoted CSV field's content read back: each `""` is one `"`.
pub open spec fn undouble_quotes(s: Seq<char>) -> Seq<char>
    decreases s.len(),
{
    if s.len() == 0 {
        seq![]
    } else if s.len() >= 2 && s[0] == '"' && s[1] == '"' {
        seq!['"'] + undouble_quotes(s.skip(2))
    } else {
        seq![s[0]] + undouble_quotes(s.skip(1))
    }
}

/// A CSV field read back (RFC 4180): a field wrapped in quotes gives its
/// content with each doubled quote made single; any other field is taken
/// as it stands.
pub open spec fn csv_unquote(f: Seq<char>) -> Seq<char> {
    if f.len() >= 2 && f[0] == '"' && f.last() == '"' {
        undouble_quotes(f.subrange(1, f.len() - 1))
    } else {
        f
    }
}

/// Doubling the quotes of two texts one after the other is doubling them
/// in each.
pub proof fn lemma_double_quotes_concat(a: Seq<char>, b: Seq<char>)
    ensures
        double_quotes(a + b) == double_quotes(a) + double_quotes(b),
    decreases b.len(),
{
    if b.len() == 0 {
        assert(a + b =~= a);
        assert(double_quotes(a) + double_quotes(b) =~= double_quotes(a));
    } else {
        assert((a + b).drop_last() =~= a + b.drop_last());
        assert((a + b).last() == b.last());
        lemma_double_quotes_concat(a, b.drop_last());
        assert(double_quotes(a + b) =~= double_quotes(a) + double_quotes(b));
    }
}

/// Reading back doubled quotes gives the text.
pub proof fn lemma_undouble_double_quotes(s: Seq<char>)
    ensures
        undouble_quotes(double_quotes(s)) == s,
    decreases s.len(),
{
    if s.len() > 0 {
        let c = s[0];
        let rest = s.skip(1);
        assert(s =~= seq![c] + rest);
        lemma_double_quotes_concat(seq![c], rest);
        assert(seq![c].drop_last() =~= Seq::<char>::empty());
        assert(double_quotes(Seq::<char>::empty()) == Seq::<char>::empty());
        assert(seq![c].last() == c);
        lemma_undouble_double_quotes(rest);
        let d = double_quotes(s);
        if c == '"' {
            assert(double_quotes(seq![c]) =~= seq!['"', '"']);
            assert(d =~= seq!['"', '"'] + double_quotes(rest));
            assert(d.skip(2) =~= double_quotes(rest));
            assert(undouble_quotes(d) =~= seq!['"'] + rest);
        } else {
            assert(double_quotes(seq![c]) =~= seq![c]);
            assert(d =~= seq![c] + double_quotes(rest));
            assert(d.skip(1) =~= double_quotes(rest));
            assert(undouble_quotes(d) =~= seq![c] + rest);
        }
    }
}

/// Every CSV field reads back as the text it was made from.
pub proof fn lemma_csv_field_unquotes(s: Seq<char>, quote_on_cr: bool)
    ensures
        csv_unquote(csv_field(s, quote_on_cr)) == s,
{
    let f = csv_field(s, quote_on_cr);
    if s.contains(',') || s.contains('"') || s.contains('\n') || (quote_on_cr && s.contains('\r')) {
        let inner = double_quotes(s);
        assert(f.subrange(1, f.len() - 1) =~= inner);
        lemma_undouble_double_quotes(s);
    } else {
        if f.len() >= 2 && f[0] == '"' {
            assert(s.contains(s[0]));
        }
    }
}

/// Reading a CSV record (RFC 4180) from `s`, having read the fields
/// `done` and the text `cur` of the current field, in `mode`: 0 at the
/// start of a field, 1 inside an unquoted field, 2 inside a quoted field,
/// 3 just after a quote inside a quoted field (the closing quote, or the
/// first of a doubled one). A comma outside quotes ends a field; the end
/// of the text ends the last.
pub open spec fn csv_scan(s: Seq<char>, done: Seq<Seq<char>>, cur: Seq<char>, mode: int) -> Seq<Seq<char>>
    decreases s.len(),
{
    if s.len() == 0 {
        done.push(cur)
    } else {
        let c = s[0];
        let rest = s.skip(1);
        if mode == 2 {
            if c == '"' { csv_scan(rest, done, cur, 3) } else { csv_scan(rest, done, cur.push(c), 2) }
        } else if mode == 3 && c == '"' {
            csv_scan(rest, done, cur.push('"'), 2)
        } else if mode == 0 && c == '"' {
            csv_scan(rest, done, cur, 2)
        } else if c == ',' {
            csv_scan(rest, done.push(cur), seq![], 0)
        } else {
            csv_scan(rest, done, cur.push(c), 1)
        }
    }
}

/// The fields of one CSV record (a line without its line ending), read as
/// RFC 4180 reads them.
pub open spec fn csv_record(line: Seq<char>) -> Seq<Seq<char>> {
    csv_scan(line, seq![], seq![], 0)
}

/// Inside quotes, the doubled text followed by the closing quote reads as
/// the text itself.
proof fn lemma_scan_quoted(x: Seq<char>, t: Seq<char>, done: Seq<Seq<char>>, cur: Seq<char>)
    ensures
        csv_scan(double_quotes(x) + seq!['"'] + t, done, cur, 2) == csv_scan(t, done, cur + x, 3),
    decreases x.len(),
{
    if x.len() == 0 {
        let all = double_quotes(x) + seq!['"'] + t;
        assert(double_quotes(x) == Seq::<char>::empty());
        assert(all =~= seq!['"'] + t);
        assert(all[0] == '"');
        assert(all.skip(1) =~= t);
        assert(csv_scan(all, done, cur, 2) == csv_scan(all.skip(1), done, cur, 3));
        assert(cur + x =~= cur);
    } else {
        let c = x[0];
        let xs = x.skip(1);
        assert(x =~= seq![c] + xs);
        lemma_double_quotes_concat(seq![c], xs);
        assert(seq![c].drop_last() =~= Seq::<char>::empty());
        assert(double_quotes(Seq::<char>::empty()) == Seq::<char>::empty());
        assert(seq![c].last() == c);
        lemma_scan_quoted(xs, t, done, cur.push(c));
        let tail = double_quotes(xs) + seq!['"'] + t;
        if c == '"' {
            assert(double_quotes(seq![c]) =~= seq!['"', '"']);
            let all = double_quotes(x) + seq!['"'] + t;
            assert(all =~= seq!['"', '"'] + tail);
            assert(all[0] == '"');
            assert(all.skip(1)[0] == '"');
            assert(all.skip(1).skip(1) =~= tail);
            assert(csv_scan(all, done, cur, 2) == csv_scan(all.skip(1), done, cur, 3));
            assert(csv_scan(all.skip(1), done, cur, 3) == csv_scan(all.skip(1).skip(1), done, cur.push('"'), 2));
            assert(cur.push(c) + xs =~= cur + x);
        } else {
            assert(double_quotes(seq![c]) =~= seq![c]);
            let all = double_quotes(x) + seq!['"'] + t;
            assert(all =~= seq![c] + tail);
            assert(all[0] == c);
            assert(all.skip(1) =~= tail);
            assert(csv_scan(all, done, cur, 2) == csv_scan(all.skip(1), done, cur.push(c), 2));
            assert(cur.push(c) + xs =~= cur + x);
        }
    }
}

/// Outside quotes, text with no comma and no quote reads as part of the
/// current field.
proof fn lemma_scan_plain(x: Seq<char>, t: Seq<char>, done: Seq<Seq<char>>, cur: Seq<char>)
    requires
        !x.contains(','),
        !x.contains('"'),
    ensures
        csv_scan(x + t, done, cur, 1) == csv_scan(t, done, cur + x, 1),
    decreases x.len(),
{
    if x.len() == 0 {
        assert(x + t =~= t);
        assert(cur + x =~= cur);
    } else {
        let c = x[0];
        let xs = x.skip(1);
        assert(x.contains(c));
        assert forall|ch: char| xs.contains(ch) implies x.contains(ch) by {
            let i = choose|i: int| 0 <= i < xs.len() && xs[i] == ch;
            assert(x[i + 1] == ch);
        }
        lemma_scan_plain(xs, t, done, cur.push(c));
        assert((x + t)[0] == c);
        assert((x + t).skip(1) =~= xs + t);
        assert(c != ',' && c != '"');
        assert(csv_scan(x + t, done, cur, 1) == csv_scan((x + t).skip(1), done, cur.push(c), 1));
        assert(cur.push(c) + xs =~= cur + x);
    }
}

/// A CSV field followed by the end of the record or by a comma reads as
/// exactly the text it was made from, as one field.
pub proof fn lemma_scan_field(x: Seq<char>, quote_on_cr: bool, t: Seq<char>, done: Seq<Seq<char>>)
    requires
        t.len() == 0 || t[0] == ',',
    ensures
        csv_scan(csv_field(x, quote_on_cr) + t, done, seq![], 0) == if t.len() == 0 {
            done.push(x)
        } else {
            csv_scan(t.skip(1), done.push(x), seq![], 0)
        },
{
    let f = csv_field(x, quote_on_cr);
    if x.contains(',') || x.contains('"') || x.contains('\n') || (quote_on_cr && x.contains('\r')) {
        let inner = double_quotes(x) + seq!['"'] + t;
        assert(f + t =~= seq!['"'] + inner);
        assert((f + t)[0] == '"');
        assert((f + t).skip(1) =~= inner);
        assert(csv_scan(f + t, done, seq![], 0) == csv_scan(inner, done, seq![], 2));
        lemma_scan_quoted(x, t, done, seq![]);
        assert(Seq::<char>::empty() + x =~= x);
        if t.len() > 0 {
            assert(csv_scan(t, done, x, 3) == csv_scan(t.skip(1), done.push(x), seq![], 0));
        } else {
            assert(csv_scan(t, done, x, 3) == done.push(x));
        }
    } else if x.len() == 0 {
        assert(f + t =~= t);
        assert(Seq::<char>::empty() =~= x);
        if t.len() > 0 {
            assert(csv_scan(t, done, seq![], 0) == csv_scan(t.skip(1), done.push(seq![]), seq![], 0));
        }
    } else {
        let c = x[0];
        let xs = x.skip(1);
        assert(x.contains(c));
        assert forall|ch: char| xs.contains(ch) implies x.contains(ch) by {
            let i = choose|i: int| 0 <= i < xs.len() && xs[i] == ch;
            assert(x[i + 1] == ch);
        }
        assert((f + t)[0] == c);
        assert((f + t).skip(1) =~= xs + t);
        assert(c != ',' && c != '"');
        assert(csv_scan(f + t, done, seq![], 0) == csv_scan(xs + t, done, seq![c], 1));
        lemma_scan_plain(xs, t, done, seq![c]);
        assert(seq![c] + xs =~= x);
        if t.len() > 0 {
            assert(csv_scan(t, done, x, 1) == csv_scan(t.skip(1), done.push(x), seq![], 0));
        } else {
            assert(csv_scan(t, done, x, 1) == done.push(x));
        }
    }
}

/// A CSV record of one or more fields: each field as `csv_field` writes
/// it, separated by commas.
pub open spec fn csv_join(fields: Seq<Seq<char>>, quote_on_cr: bool) -> Seq<char>
    decreases fields.len(),
{
    if fields.len() <= 1 {
        if fields.len() == 0 { seq![] } else { csv_field(fields[0], quote_on_cr) }
    } else {
        csv_join(fields.drop_last(), quote_on_cr) + seq![','] + csv_field(fields.last(), quote_on_cr)
    }
}

/// A record of fields written by `csv_join` reads back field by field.
pub proof fn lemma_scan_join(fields: Seq<Seq<char>>, quote_on_cr: bool, t: Seq<char>, done: Seq<Seq<char>>)
    requires
        fields.len() >= 1,
        t.len() == 0 || t[0] == ',',
    ensures
        csv_scan(csv_join(fields, quote_on_cr) + t, done, seq![], 0) == if t.len() == 0 {
            done + fields
        } else {
            csv_scan(t.skip(1), done + fields, seq![], 0)
        },
    decreases fields.len(),
{
    if fields.len() == 1 {
        lemma_scan_field(fields[0], quote_on_cr, t, done);
        assert(done.push(fields[0]) =~= done + fields);
    } else {
        let init = fields.drop_last();
        let last = fields.last();
        let t2 = seq![','] + (csv_field(last, quote_on_cr) + t);
        assert(csv_join(fields, quote_on_cr) + t =~= csv_join(init, quote_on_cr) + t2);
        lemma_scan_join(init, quote_on_cr, t2, done);
        assert(t2.skip(1) =~= csv_field(last, quote_on_cr) + t);
        lemma_scan_field(last, quote_on_cr, t, done + init);
        assert((done + init).push(last) =~= done + fields);
    }
}

/// A record written by `csv_join` reads back (RFC 4180) as its fields.
pub proof fn lemma_csv_join_reads_back(fields: Seq<Seq<char>>, quote_on_cr: bool)
    requires
        fields.len() >= 1,
    ensures
        csv_record(csv_join(fields, quote_on_cr)) == fields,
{
    lemma_scan_join(fields, quote_on_cr, seq![], seq![]);
    assert(csv_join(fields, quote_on_cr) + Seq::<char>::empty() =~= csv_join(fields, quote_on_cr));
    assert(Seq::<Seq<char>>::empty() + fields =~= fields);
}

/// Text that CSV writes as it stands: no comma, quote, line feed or
/// carriage return.
pub open spec fn csv_plain(s: Seq<char>) -> bool {
    !s.contains(',') && !s.contains('"') && !s.contains('\n') && !s.contains('\r')
}

/// Decimal digits are plain CSV text.
pub proof fn lemma_dec_digits_plain(n: nat)
    ensures
        csv_plain(dec_digits(n)),
        forall|i: int| 0 <= i < dec_digits(n).len() ==> '0' <= #[trigger] dec_digits(n)[i] <= '9',
    decreases n,
{
    let d = dec_digits(n);
    if n >= 10 {
        lemma_dec_digits_plain(n / 10);
        let p = dec_digits(n / 10);
        assert forall|i: int| 0 <= i < d.len() implies '0' <= #[trigger] d[i] <= '9' by {
            if i < p.len() {
                assert(d[i] == p[i]);
            }
        }
    }
    assert forall|c: char| d.contains(c) implies '0' <= c <= '9' by {
        let i = choose|i: int| 0 <= i < d.len() && d[i] == c;
    }
}

/// A decimal integer is plain CSV text.
pub proof fn lemma_int_text_plain(v: int)
    ensures
        csv_plain(int_text(v)),
{
    if v < 0 {
        lemma_dec_digits_plain((-v) as nat);
        let t = int_text(v);
        let d = dec_digits((-v) as nat);
        assert(t =~= seq!['-'] + d);
        assert forall|c: char| t.contains(c) implies c == '-' || d.contains(c) by {
            let i = choose|i: int| 0 <= i < t.len() && t[i] == c;
            if i > 0 {
                assert(d[i - 1] == c);
            }
        }
    } else {
        lemma_dec_digits_plain(v as nat);
        assert(int_text(v) =~= dec_digits(v as nat));
    }
}

/// Renders a CSV field (see `csv_field`).
pub fn csv_field_string(s: &str, quote_on_cr: bool) -> (r: String)
    ensures
        r@ == csv_field(s@, quote_on_cr),
{
    let cs = chars_of(s);
    let quote = contains_char(&cs, ',') || contains_char(&cs, '"') || contains_char(&cs, '\n')
        || (quote_on_cr && contains_char(&cs, '\r'));
    if !quote {
        return string_of(&cs);
    }
    let mut out = String::new();
    push_char(&mut out, '"');
    let mut i: usize = 0;
    while i < cs.len()
        invariant
            i <= cs@.len(),
            out@ == seq!['"'] + double_quotes(cs@.take(i as int)),
        decreases cs.len() - i,
    {
        let c = cs[i];
        proof {
            assert(cs@.take(i + 1).drop_last() =~= cs@.take(i as int));
        }
        if c == '"' {
            push_char(&mut out, '"');
            push_char(&mut out, '"');
        } else {
            push_char(&mut out, c);
        }
        i = i + 1;
        assert(out@ =~= seq!['"'] + double_quotes(cs@.take(i as int)));
    }
    assert(cs@.take(i as int) =~= cs@);
    push_char(&mut out, '"');
    out
}

/// A character with the Unicode `White_Space` property, as
/// `char::is_whitespace` tells.
pub open spec fn is_white_space(c: char) -> bool {
    ('\u{9}' <= c && c <= '\u{d}') || c == ' ' || c == '\u{85}' || c == '\u{a0}' || c == '\u{1680}'
        || ('\u{2000}' <= c && c <= '\u{200a}') || c == '\u{2028}' || c == '\u{2029}' || c == '\u{202f}'
        || c == '\u{205f}' || c == '\u{3000}'
}

/// `s` without its leading white space.
pub open spec fn trim_start_spec(s: Seq<char>) -> Seq<char>
    decreases s.len(),
{
    if s.len() > 0 && is_white_space(s[0]) {
        trim_start_spec(s.drop_first())
    } else {
        s
    }
}

/// `s` without its trailing white space.
pub open spec fn trim_end_spec(s: Seq<char>) -> Seq<char>
    decreases s.len(),
{
    if s.len() > 0 && is_white_space(s.last()) {
        trim_end_spec(s.drop_last())
    } else {
        s
    }
}

/// Trimming the start drops exactly the leading white space.
pub proof fn lemma_trim_start(s: Seq<char>)
    ensures
        exists|i: int| 0 <= i <= s.len() && trim_start_spec(s) == s.skip(i)
            && (forall|k: int| 0 <= k < i ==> is_white_space(#[trigger] s[k]))
            && (i < s.len() ==> !is_white_space(s[i])),
    decreases s.len(),
{
    if s.len() > 0 && is_white_space(s[0]) {
        lemma_trim_start(s.drop_first());
        let i = choose|i: int| 0 <= i <= s.drop_first().len() && trim_start_spec(s.drop_first()) == s.drop_first().skip(i)
            && (forall|k: int| 0 <= k < i ==> is_white_space(#[trigger] s.drop_first()[k]))
            && (i < s.drop_first().len() ==> !is_white_space(s.drop_first()[i]));
        assert(s.drop_first().skip(i) =~= s.skip(i + 1));
        assert forall|k: int| 0 <= k < i + 1 implies is_white_space(#[trigger] s[k]) by {
            if k > 0 {
                assert(s[k] == s.drop_first()[k - 1]);
            }
        }
        if i + 1 < s.len() {
            assert(s[i + 1] == s.drop_first()[i]);
        }
    } else {
        assert(s.skip(0) =~= s);
    }
}

/// Trimming the end drops exactly the trailing white space.
pub proof fn lemma_trim_end(s: Seq<char>)
    ensures
        exists|j: int| 0 <= j <= s.len() && trim_end_spec(s) == s.take(j)
            && (forall|k: int| j <= k < s.len() ==> is_white_space(#[trigger] s[k]))
            && (j > 0 ==> !is_white_space(s[j - 1])),
    decreases s.len(),
{
    if s.len() > 0 && is_white_space(s.last()) {
        lemma_trim_end(s.drop_last());
        let j = choose|j: int| 0 <= j <= s.drop_last().len() && trim_end_spec(s.drop_last()) == s.drop_last().take(j)
            && (forall|k: int| j <= k < s.drop_last().len() ==> is_white_space(#[trigger] s.drop_last()[k]))
            && (j > 0 ==> !is_white_space(s.drop_last()[j - 1]));
        assert(s.drop_last().take(j) =~= s.take(j));
        assert forall|k: int| j <= k < s.len() implies is_white_space(#[trigger] s[k]) by {
            if k < s.len() - 1 {
                assert(s[k] == s.drop_last()[k]);
            }
        }
        if j > 0 {
            assert(s[j - 1] == s.drop_last()[j - 1]);
        }
    } else {
        assert(s.take(s.len() as int) =~= s);
    }
}

/// Trimming keeps the middle of the text: it drops white space only, from
/// both ends, and what it keeps neither starts nor ends with white space.
pub proof fn law_trimmed(s: Seq<char>)
    ensures
        exists|i: int, j: int| 0 <= i <= j <= s.len() && trimmed(s) == s.subrange(i, j)
            && (forall|k: int| 0 <= k < i ==> is_white_space(#[trigger] s[k]))
            && (forall|k: int| j <= k < s.len() ==> is_white_space(#[trigger] s[k])),
        trimmed(s).len() > 0 ==> !is_white_space(trimmed(s)[0]) && !is_white_space(trimmed(s).last()),
{
    lemma_trim_start(s);
    let i = choose|i: int| 0 <= i <= s.len() && trim_start_spec(s) == s.skip(i)
        && (forall|k: int| 0 <= k < i ==> is_white_space(#[trigger] s[k]))
        && (i < s.len() ==> !is_white_space(s[i]));
    let t = s.skip(i);
    lemma_trim_end(t);
    let j = choose|j: int| 0 <= j <= t.len() && trim_end_spec(t) == t.take(j)
        && (forall|k: int| j <= k < t.len() ==> is_white_space(#[trigger] t[k]))
        && (j > 0 ==> !is_white_space(t[j - 1]));
    assert(t.take(j) =~= s.subrange(i, i + j));
    assert forall|k: int| i + j <= k < s.len() implies is_white_space(#[trigger] s[k]) by {
        assert(s[k] == t[k - i]);
    }
    if j > 0 {
        assert(trimmed(s)[0] == t[0]);
        assert(t[0] == s[i]);
        assert(trimmed(s).last() == t[j - 1]);
    }
}

/// `s` without leading and trailing white space (`str::trim`).
pub open spec fn trimmed(s: Seq<char>) -> Seq<char> {
    trim_end_spec(trim_start_spec(s))
}

/// Whether `c` is white space (see `is_white_space`).
pub fn white_space(c: char) -> (r: bool)
    ensures
        r == is_white_space(c),
{
    ('\u{9}' <= c && c <= '\u{d}') || c == ' ' || c == '\u{85}' || c == '\u{a0}' || c == '\u{1680}'
        || ('\u{2000}' <= c && c <= '\u{200a}') || c == '\u{2028}' || c == '\u{2029}' || c == '\u{202f}'
        || c == '\u{205f}' || c == '\u{3000}'
}

/// The characters of `s` without leading and trailing white space.
pub fn trim_chars(s: &str) -> (r: Vec<char>)
    ensures
        r@ == trimmed(s@),
{
    let cs = chars_of(s);
    let n = cs.len();
    let mut i: usize = 0;
    assert(cs@.skip(0) =~= cs@);
    while i < n && white_space(cs[i])
        invariant
            n == cs@.len(),
            i <= n,
            trim_start_spec(cs@) == trim_start_spec(cs@.skip(i as int)),
        decreases n - i,
    {
        assert(cs@.skip(i as int).drop_first() =~= cs@.skip(i + 1));
        i = i + 1;
    }
    assert(trim_start_spec(cs@.skip(i as int)) == cs@.skip(i as int));
    let mut j: usize = n;
    while j > i && white_space(cs[j - 1])
        invariant
            n == cs@.len(),
            i <= j <= n,
            trimmed(s@) == trim_end_spec(cs@.subrange(i as int, j as int)),
            cs@ == s@,
            trim_start_spec(cs@) == cs@.skip(i as int),
        decreases j - i,
    {
        assert(cs@.subrange(i as int, j as int).drop_last() =~= cs@.subrange(i as int, j - 1));
        j = j - 1;
    }
    if i == j {
        assert(cs@.subrange(i as int, j as int) =~= Seq::<char>::empty());
    }
    assert(cs@.skip(i as int) =~= cs@.subrange(i as int, n as int));
    let mut out: Vec<char> = Vec::new();
    let mut k: usize = i;
    while k < j
        invariant
            i <= k <= j <= n,
            n == cs@.len(),
            out@ == cs@.subrange(i as int, k as int),
        decreases j - k,
    {
        out.push(cs[k]);
        k = k + 1;
        assert(out@ =~= cs@.subrange(i as int, k as int));
    }
    out
}

/// `s` without leading and trailing white space (`str::trim`).
pub fn trim(s: &str) -> (r: String)
    ensures
        r@ == trimmed(s@),
{
    let cs = trim_chars(s);
    string_of(&cs)
}

/// The order of `str::cmp`: lexicographic by character, a proper prefix
/// first (UTF-8 bytes compare as the characters they encode do).
pub open spec fn text_lt(a: Seq<char>, b: Seq<char>) -> bool
    decreases a.len(),
{
    if a.len() == 0 {
        b.len() > 0
    } else if b.len() == 0 {
        false
    } else if a[0] != b[0] {
        a[0] < b[0]
    } else {
        text_lt(a.drop_first(), b.drop_first())
    }
}

/// The text order is a strict total order.
pub proof fn lemma_text_lt_order(a: Seq<char>, b: Seq<char>, c: Seq<char>)
    ensures
        !text_lt(a, a),
        text_lt(a, b) ==> !text_lt(b, a),
        a != b ==> text_lt(a, b) || text_lt(b, a),
        text_lt(a, b) && text_lt(b, c) ==> text_lt(a, c),
    decreases a.len(),
{
    if a.len() > 0 && b.len() > 0 && c.len() > 0 {
        lemma_text_lt_order(a.drop_first(), b.drop_first(), c.drop_first());
    } else if a.len() > 0 && b.len() > 0 {
        lemma_text_lt_order(a.drop_first(), b.drop_first(), b.drop_first());
    } else if a.len() > 0 {
        lemma_text_lt_order(a.drop_first(), a.drop_first(), a.drop_first());
    }
    if a.len() > 0 && b.len() > 0 && a[0] == b[0] && a != b {
        assert(a.drop_first() != b.drop_first()) by {
            if a.drop_first() == b.drop_first() {
                assert(a =~= seq![a[0]] + a.drop_first());
                assert(b =~= seq![b[0]] + b.drop_first());
            }
        }
    }
    if a.len() == 0 && b.len() == 0 {
        assert(a =~= b);
    }
}

/// Whether `a` comes before `b` in the text order (see `text_lt`).
pub fn text_less(a: &Vec<char>, b: &Vec<char>) -> (r: bool)
    ensures
        r == text_lt(a@, b@),
{
    let mut i: usize = 0;
    assert(a@.skip(0) =~= a@);
    assert(b@.skip(0) =~= b@);
    while i < a.len() && i < b.len() && a[i] == b[i]
        invariant
            i <= a@.len(),
            i <= b@.len(),
            text_lt(a@, b@) == text_lt(a@.skip(i as int), b@.skip(i as int)),
        decreases a.len() - i,
    {
        assert(a@.skip(i as int).drop_first() =~= a@.skip(i + 1));
        assert(b@.skip(i as int).drop_first() =~= b@.skip(i + 1));
        i = i + 1;
    }
    if i == a.len() {
        i < b.len()
    } else if i == b.len() {
        false
    } else {
        a[i] < b[i]
    }
}

/// The text before the first `c` (all of it when there is none).
pub open spec fn before_first(s: Seq<char>, c: char) -> Seq<char>
    decreases s.len(),
{
    if s.len() == 0 {
        s
    } else if s[0] == c {
        seq![]
    } else {
        seq![s[0]] + before_first(s.drop_first(), c)
    }
}

/// Where the first `c` is: the text before it is free of `c`, and the
/// character after that text is `c` when there is one.
pub proof fn lemma_before_first(s: Seq<char>, c: char)
    ensures
        before_first(s, c).len() <= s.len(),
        before_first(s, c) == s.take(before_first(s, c).len() as int),
        !before_first(s, c).contains(c),
        s.contains(c) <==> before_first(s, c).len() < s.len(),
        before_first(s, c).len() < s.len() ==> s[before_first(s, c).len() as int] == c,
    decreases s.len(),
{
    if s.len() > 0 && s[0] != c {
        let t = s.drop_first();
        lemma_before_first(t, c);
        let b = before_first(t, c);
        assert(before_first(s, c) =~= seq![s[0]] + b);
        assert(s.take(b.len() + 1int) =~= seq![s[0]] + t.take(b.len() as int));
        if s.contains(c) {
            let i = choose|i: int| 0 <= i < s.len() && s[i] == c;
            assert(t[i - 1] == c);
        }
        if t.contains(c) {
            let i = choose|i: int| 0 <= i < t.len() && t[i] == c;
            assert(s[i + 1] == c);
        }
        if (seq![s[0]] + b).contains(c) {
            let i = choose|i: int| 0 <= i < b.len() + 1 && (seq![s[0]] + b)[i] == c;
            assert(b[i - 1] == c);
        }
    } else if s.len() > 0 {
        assert(s[0] == c);
        assert(s.contains(c));
        assert(s.take(0) =~= Seq::<char>::empty());
    } else {
        assert(s.take(0) =~= s);
    }
}

/// Splits at the first `c`: the text before it and the text after it,
/// or none when `c` does not occur.
pub fn split_once_char(s: &str, c: char) -> (r: Option<(String, String)>)
    ensures
        match r {
            Some(p) => s@.contains(c) && p.0@ == before_first(s@, c) && p.1@ == s@.skip(
                before_first(s@, c).len() + 1int,
            ),
            None => !s@.contains(c),
        },
{
    proof {
        lemma_before_first(s@, c);
    }
    let cs = chars_of(s);
    let mut i: usize = 0;
    while i < cs.len() && cs[i] != c
        invariant
            i <= cs@.len(),
            cs@ == s@,
            forall|k: int| 0 <= k < i ==> cs@[k] != c,
        decreases cs.len() - i,
    {
        i = i + 1;
    }
    proof {
        let b = before_first(s@, c);
        if i < cs@.len() {
            assert(s@.contains(c));
            if b.len() < i {
                assert(cs@[b.len() as int] == c);
            }
            if b.len() > i {
                assert(b[i as int] == s@[i as int]);
                assert(b.contains(c));
            }
        } else {
            assert(!s@.contains(c)) by {
                if s@.contains(c) {
                    let k = choose|k: int| 0 <= k < s@.len() && s@[k] == c;
                }
            }
        }
    }
    if i == cs.len() {
        return None;
    }
    let mut before: Vec<char> = Vec::new();
    let mut k: usize = 0;
    while k < i
        invariant
            k <= i,
            i < cs@.len(),
            before@ == cs@.take(k as int),
        decreases i - k,
    {
        before.push(cs[k]);
        k = k + 1;
        assert(before@ =~= cs@.take(k as int));
    }
    let mut after: Vec<char> = Vec::new();
    let mut m: usize = i + 1;
    while m < cs.len()
        invariant
            i < m <= cs@.len(),
            after@ == cs@.subrange(i + 1, m as int),
        decreases cs.len() - m,
    {
        after.push(cs[m]);
        m = m + 1;
        assert(after@ =~= cs@.subrange(i + 1, m as int));
    }
    assert(after@ =~= cs@.skip(i + 1));
    Some((string_of(&before), string_of(&after)))
}

} // verus!
