//! Small pieces of text handling: decimal numbers, white space, and quoting for messages.

use vstd::prelude::*;

verus! {

/// `String::push`: appends one character.
pub assume_specification[ String::push ](s: &mut String, c: char)
    ensures
        final(s)@ == old(s)@.push(c),
;

/// The character for a decimal digit.
pub open spec fn digit(d: nat) -> char {
    (48 + d) as char
}

/// The decimal digits of `n`.
pub open spec fn digits(n: nat) -> Seq<char>
    decreases n,
{
    if n < 10 {
        seq![digit(n)]
    } else {
        digits(n / 10).push(digit(n % 10))
    }
}

/// A number in decimal, with a minus sign in front when it is negative.
pub open spec fn decimal(i: int) -> Seq<char> {
    if i < 0 {
        seq!['-'] + digits((-i) as nat)
    } else {
        digits(i as nat)
    }
}

/// Appends `n` in decimal.
pub fn push_digits(s: &mut String, n: u64)
    ensures
        final(s)@ == old(s)@ + digits(n as nat),
    decreases n,
{
    let d: u8 = (n % 10) as u8;
    let ghost before = s@;
    if n >= 10 {
        push_digits(s, n / 10);
    }
    s.push((48 + d) as char);
    proof {
        if n >= 10 {
            let head = digits(n as nat / 10);
            assert((before + head).push(digit(d as nat)) =~= before + head.push(digit(d as nat)));
        } else {
            assert(before.push(digit(d as nat)) =~= before + seq![digit(d as nat)]);
        }
    }
}

/// Appends `i` in decimal.
pub fn push_decimal(s: &mut String, i: i64)
    ensures
        final(s)@ == old(s)@ + decimal(i as int),
{
    let ghost before = s@;
    if i < 0 {
        s.push('-');
        push_digits(s, (-(i as i128)) as u64);
        let ghost d = digits((-i) as nat);
        assert(before.push('-') + d =~= before + (seq!['-'] + d));
    } else {
        push_digits(s, i as u64);
    }
}

/// Whether a character is white space: the characters that have Unicode's White_Space property.
pub open spec fn white_space(c: char) -> bool {
    let p = c as u32;
    ||| 9 <= p <= 13
    ||| p == 32
    ||| p == 133
    ||| p == 160
    ||| p == 5760
    ||| 8192 <= p <= 8202
    ||| p == 8232
    ||| p == 8233
    ||| p == 8239
    ||| p == 8287
    ||| p == 12288
}

/// `char::is_whitespace`: whether the character has Unicode's White_Space property.
pub assume_specification[ char::is_whitespace ](c: char) -> (b: bool)
    ensures
        b == white_space(c),
;

/// What the `Debug` form of a string looks like.
pub uninterp spec fn debug_form(s: Seq<char>) -> Seq<char>;

/// `format!` with the `Debug` form of a string: the string in double quotes, with what cannot stand
/// there escaped. The result is a function of the string.
#[verifier::external_body]
pub(crate) fn quoted(s: &str) -> (q: String)
    ensures
        q@ == debug_form(s@),
{
    format!("{:?}", s)
}

/// A text without the white space in front.
pub open spec fn trimmed_start(s: Seq<char>) -> Seq<char>
    decreases s.len(),
{
    if s.len() > 0 && white_space(s[0]) {
        trimmed_start(s.drop_first())
    } else {
        s
    }
}

/// A text without the white space behind.
pub open spec fn trimmed_end(s: Seq<char>) -> Seq<char>
    decreases s.len(),
{
    if s.len() > 0 && white_space(s.last()) {
        trimmed_end(s.drop_last())
    } else {
        s
    }
}

/// A text without the white space around it.
pub open spec fn trimmed(s: Seq<char>) -> Seq<char> {
    trimmed_end(trimmed_start(s))
}

/// The characters of a text.
pub fn chars_of(s: &str) -> (v: Vec<char>)
    ensures
        v@ == s@,
{
    let mut v: Vec<char> = Vec::new();
    for c in it: s.chars()
        invariant
            it.seq() == s@,
            v@ == s@.take(it.index()),
    {
        v.push(c);
        assert(s@.take(it.index()).push(c) =~= s@.take(it.index() + 1));
    }
    assert(s@.take(s@.len() as int) =~= s@);
    v
}

/// The text of the characters from `from` to `to`.
pub fn string_from(v: &Vec<char>, from: usize, to: usize) -> (s: String)
    requires
        from <= to <= v@.len(),
    ensures
        s@ == v@.subrange(from as int, to as int),
{
    let mut s: String = String::new();
    let mut i: usize = from;
    while i < to
        invariant
            from <= i <= to <= v@.len(),
            s@ == v@.subrange(from as int, i as int),
        decreases to - i,
    {
        s.push(v[i]);
        assert(v@.subrange(from as int, i as int).push(v@[i as int]) =~= v@.subrange(
            from as int,
            i + 1,
        ));
        i = i + 1;
    }
    s
}

/// Cuts off the white space around a text.
pub fn trim(s: &str) -> (r: String)
    ensures
        r@ == trimmed(s@),
{
    let v: Vec<char> = chars_of(s);
    let n: usize = v.len();
    let mut from: usize = 0;
    assert(v@.skip(0) =~= v@);
    while from < n && v[from].is_whitespace()
        invariant
            from <= n == v@.len(),
            trimmed_start(v@) == trimmed_start(v@.skip(from as int)),
        decreases n - from,
    {
        assert(v@.skip(from as int).drop_first() =~= v@.skip(from + 1));
        from = from + 1;
    }
    let ghost mid = v@.skip(from as int);
    assert(trimmed_start(v@) == mid);
    let mut to: usize = n;
    assert(v@.subrange(from as int, n as int) =~= mid);
    while from < to && v[to - 1].is_whitespace()
        invariant
            from <= to <= n == v@.len(),
            trimmed_end(mid) == trimmed_end(v@.subrange(from as int, to as int)),
        decreases to,
    {
        assert(v@.subrange(from as int, to as int).drop_last() =~= v@.subrange(
            from as int,
            to - 1,
        ));
        to = to - 1;
    }
    string_from(&v, from, to)
}

/// Whether a text starts with another.
pub open spec fn starts(s: Seq<char>, prefix: Seq<char>) -> bool {
    prefix.len() <= s.len() && s.take(prefix.len() as int) == prefix
}

/// What follows `prefix` at the front of a text, if it is there.
pub fn strip_prefix(s: &str, prefix: &str) -> (r: Option<String>)
    ensures
        match r {
            Some(rest) => starts(s@, prefix@) && rest@ == s@.skip(prefix@.len() as int),
            None => !starts(s@, prefix@),
        },
{
    let v: Vec<char> = chars_of(s);
    let p: Vec<char> = chars_of(prefix);
    if v.len() < p.len() {
        return None;
    }
    let mut i: usize = 0;
    while i < p.len()
        invariant
            i <= p@.len() <= v@.len(),
            p@ == prefix@,
            v@ == s@,
            forall|j: int| 0 <= j < i ==> v@[j] == p@[j],
        decreases p.len() - i,
    {
        if v[i] != p[i] {
            assert(s@.take(prefix@.len() as int)[i as int] != prefix@[i as int]);
            return None;
        }
        i = i + 1;
    }
    assert(s@.take(prefix@.len() as int) =~= prefix@);
    let n: usize = v.len();
    assert(s@.subrange(p@.len() as int, n as int) =~= s@.skip(prefix@.len() as int));
    Some(string_from(&v, p.len(), n))
}

/// What stands in front of and behind the first `c`, if there is one.
pub open spec fn split_once(s: Seq<char>, c: char) -> Option<(Seq<char>, Seq<char>)> {
    match s.index_of_first(c) {
        Some(i) => Some((s.take(i), s.skip(i + 1))),
        None => None,
    }
}

/// That the first `c` is at `i`.
pub proof fn lemma_split_once(s: Seq<char>, c: char, i: int)
    requires
        0 <= i < s.len(),
        s[i] == c,
        forall|j: int| 0 <= j < i ==> s[j] != c,
    ensures
        split_once(s, c) == Some((s.take(i), s.skip(i + 1))),
{
    s.index_of_first_ensures(c);
}

/// Cuts a text at the first `c`.
pub fn cut_once(s: &str, c: char) -> (r: Option<(String, String)>)
    ensures
        match r {
            Some((a, b)) => split_once(s@, c) == Some((a@, b@)),
            None => split_once(s@, c) is None,
        },
{
    let v: Vec<char> = chars_of(s);
    let n: usize = v.len();
    let mut i: usize = 0;
    while i < n
        invariant
            i <= n == v@.len(),
            v@ == s@,
            forall|j: int| 0 <= j < i ==> v@[j] != c,
        decreases n - i,
    {
        if v[i] == c {
            proof {
                lemma_split_once(s@, c, i as int);
                assert(s@.subrange(0, i as int) =~= s@.take(i as int));
                assert(s@.subrange(i + 1, n as int) =~= s@.skip(i + 1));
            }
            return Some((string_from(&v, 0, i), string_from(&v, i + 1, n)));
        }
        i = i + 1;
    }
    proof {
        s@.index_of_first_ensures(c);
    }
    None
}

/// The pieces of a text between the `c`s.
pub open spec fn split_on(s: Seq<char>, c: char) -> Seq<Seq<char>>
    decreases s.len(),
{
    match split_once(s, c) {
        Some((a, b)) => if b.len() < s.len() {
            seq![a] + split_on(b, c)
        } else {
            seq![s]
        },
        None => seq![s],
    }
}

/// The pieces that are not empty.
pub open spec fn nonempty(l: Seq<Seq<char>>) -> Seq<Seq<char>>
    decreases l.len(),
{
    if l.len() == 0 {
        Seq::empty()
    } else if l[0].len() > 0 {
        seq![l[0]] + nonempty(l.drop_first())
    } else {
        nonempty(l.drop_first())
    }
}

/// The names in a path.
pub open spec fn components(path: Seq<char>) -> Seq<Seq<char>> {
    nonempty(split_on(path, '/'))
}

proof fn lemma_components_cut(s: Seq<char>, i: int)
    requires
        0 <= i < s.len(),
        s[i] == '/',
        forall|j: int| 0 <= j < i ==> s[j] != '/',
    ensures
        components(s) == (if i > 0 {
            seq![s.take(i)]
        } else {
            Seq::empty()
        }) + components(s.skip(i + 1)),
{
    lemma_split_once(s, '/', i);
    let rest = split_on(s.skip(i + 1), '/');
    assert((seq![s.take(i)] + rest).drop_first() =~= rest);
    assert(Seq::<Seq<char>>::empty() + nonempty(rest) =~= nonempty(rest));
}

proof fn lemma_components_whole(s: Seq<char>)
    requires
        forall|j: int| 0 <= j < s.len() ==> s[j] != '/',
    ensures
        components(s) == (if s.len() > 0 {
            seq![s]
        } else {
            Seq::empty()
        }),
{
    s.index_of_first_ensures('/');
    assert(split_on(s, '/') =~= seq![s]);
    assert(seq![s].drop_first() =~= Seq::<Seq<char>>::empty());
    assert(nonempty(Seq::<Seq<char>>::empty()) =~= Seq::<Seq<char>>::empty());
    assert(seq![s] + Seq::<Seq<char>>::empty() =~= seq![s]);
}

/// Takes a path apart into its names.
pub fn path_names(path: &str) -> (names: Vec<String>)
    ensures
        crate::calls::name_views(names@) == components(path@),
{
    let v: Vec<char> = chars_of(path);
    let n: usize = v.len();
    let mut names: Vec<String> = Vec::new();
    let mut from: usize = 0;
    let mut i: usize = 0;
    assert(v@.skip(0) =~= v@);
    assert(crate::calls::name_views(names@) + components(v@) =~= components(v@));
    while i < n
        invariant
            from <= i <= n == v@.len(),
            v@ == path@,
            forall|j: int| from <= j < i ==> v@[j] != '/',
            components(path@) == crate::calls::name_views(names@) + components(
                v@.skip(from as int),
            ),
        decreases n - i,
    {
        if v[i] == '/' {
            proof {
                let rest = v@.skip(from as int);
                lemma_components_cut(rest, i - from);
                assert(rest.take(i - from) =~= v@.subrange(from as int, i as int));
                assert(rest.skip(i - from + 1) =~= v@.skip(i + 1));
            }
            let ghost before = crate::calls::name_views(names@);
            if i > from {
                let name: String = string_from(&v, from, i);
                proof {
                    assert(crate::calls::name_views(names@.push(name)) =~= before.push(name@));
                    assert(before.push(name@) + components(v@.skip(i + 1)) =~= before + (seq![name@]
                        + components(v@.skip(i + 1))));
                }
                names.push(name);
            } else {
                assert(before + (Seq::<Seq<char>>::empty() + components(v@.skip(i + 1))) =~= before
                    + components(v@.skip(i + 1)));
            }
            from = i + 1;
        }
        i = i + 1;
    }
    proof {
        lemma_components_whole(v@.skip(from as int));
        assert(v@.skip(from as int) =~= v@.subrange(from as int, n as int));
    }
    let ghost before = crate::calls::name_views(names@);
    if from < n {
        let name: String = string_from(&v, from, n);
        assert(crate::calls::name_views(names@.push(name)) =~= before + seq![name@]);
        names.push(name);
    } else {
        assert(before + Seq::<Seq<char>>::empty() =~= before);
    }
    names
}

/// The number that a string of decimal digits says.
pub open spec fn number_said(s: Seq<char>) -> int
    decreases s.len(),
{
    if s.len() == 0 {
        0
    } else {
        10 * number_said(s.drop_last()) + (s.last() as int - '0' as int)
    }
}

/// The digits of a number say that number, and are as few as can say it.
pub proof fn digits_say_the_number(n: nat)
    ensures
        number_said(digits(n)) == n,
        digits(n).len() > 0,
        forall|i: int| 0 <= i < digits(n).len() ==> '0' <= #[trigger] digits(n)[i] <= '9',
        digits(n).len() > 1 ==> digits(n)[0] != '0',
    decreases n,
{
    if n < 10 {
        assert(seq![digit(n)].drop_last() =~= Seq::<char>::empty());
        assert(number_said(Seq::<char>::empty()) == 0);
    } else {
        digits_say_the_number(n / 10);
        let front = digits(n / 10);
        assert(digits(n).drop_last() =~= front);
        if front.len() == 1 {
            assert(number_said(front) == n / 10);
            assert(front.drop_last() =~= Seq::<char>::empty());
            assert(number_said(Seq::<char>::empty()) == 0);
        }
    }
}

/// A negative number is its digits behind a minus sign.
pub proof fn decimals_say_the_number(i: int)
    ensures
        i >= 0 ==> number_said(decimal(i)) == i && decimal(i)[0] != '-',
        i < 0 ==> decimal(i)[0] == '-' && number_said(decimal(i).skip(1)) == -i,
{
    if i < 0 {
        digits_say_the_number((-i) as nat);
        assert(decimal(i).skip(1) =~= digits((-i) as nat));
    } else {
        digits_say_the_number(i as nat);
    }
}

/// Whether a string is white space only.
pub open spec fn blank(s: Seq<char>) -> bool {
    forall|i: int| 0 <= i < s.len() ==> white_space(#[trigger] s[i])
}

/// Trimming takes the white space off both ends, all of it and nothing else.
pub proof fn trimming_takes_white_space_off(before: Seq<char>, s: Seq<char>, behind: Seq<char>)
    requires
        blank(before),
        blank(behind),
        s.len() > 0 ==> !white_space(s[0]) && !white_space(s.last()),
    ensures
        trimmed(before + s + behind) == s,
    decreases before.len() + behind.len(),
{
    let all = before + s + behind;
    if before.len() > 0 {
        assert forall|i: int| 0 <= i < before.drop_first().len() implies white_space(
            #[trigger] before.drop_first()[i],
        ) by {
            assert(white_space(before[i + 1]));
        }
        trimming_takes_white_space_off(before.drop_first(), s, behind);
        assert(all.drop_first() =~= before.drop_first() + s + behind);
        assert(white_space(all[0]));
    } else if s.len() == 0 {
        assert(all =~= behind);
        lemma_blank_trims(behind);
        assert(trimmed_end(Seq::<char>::empty()) =~= s);
    } else {
        assert(all[0] == s[0]);
        lemma_blank_end(s, behind);
        assert(all =~= s + behind);
    }
}

proof fn lemma_blank_trims(s: Seq<char>)
    requires
        blank(s),
    ensures
        trimmed_start(s) == Seq::<char>::empty(),
    decreases s.len(),
{
    if s.len() > 0 {
        assert(white_space(s[0]));
        assert forall|i: int| 0 <= i < s.drop_first().len() implies white_space(
            #[trigger] s.drop_first()[i],
        ) by {
            assert(white_space(s[i + 1]));
        }
        lemma_blank_trims(s.drop_first());
    } else {
        assert(s =~= Seq::<char>::empty());
    }
}

proof fn lemma_blank_end(s: Seq<char>, behind: Seq<char>)
    requires
        blank(behind),
        s.len() > 0,
        !white_space(s.last()),
    ensures
        trimmed_end(s + behind) == s,
    decreases behind.len(),
{
    let all = s + behind;
    if behind.len() > 0 {
        assert(white_space(behind[behind.len() - 1]));
        assert(all.last() == behind.last());
        assert forall|i: int| 0 <= i < behind.drop_last().len() implies white_space(
            #[trigger] behind.drop_last()[i],
        ) by {
            assert(white_space(behind[i]));
        }
        lemma_blank_end(s, behind.drop_last());
        assert(all.drop_last() =~= s + behind.drop_last());
    } else {
        assert(all =~= s);
    }
}

/// A string is split at the first of the characters that it is split at.
pub proof fn strings_split_at_the_first(a: Seq<char>, c: char, b: Seq<char>)
    requires
        !a.contains(c),
    ensures
        split_once(a + seq![c] + b, c) == Some((a, b)),
        split_once(a, c) is None,
{
    let s = a + seq![c] + b;
    assert forall|j: int| 0 <= j < a.len() implies s[j] != c by {
        assert(s[j] == a[j]);
        assert(a.contains(a[j]));
    }
    lemma_split_once(s, c, a.len() as int);
    assert(s.take(a.len() as int) =~= a);
    assert(s.skip(a.len() as int + 1) =~= b);
    a.index_of_first_ensures(c);
}

/// A path has the names that it is joined from with slashes, in order; slashes too many count for
/// nothing.
pub proof fn paths_are_joined_by_slashes(a: Seq<char>, b: Seq<char>)
    ensures
        components(a + seq!['/'] + b) == components(a) + components(b),
    decreases a.len(),
{
    let s = a + seq!['/'] + b;
    if a.contains('/') {
        let i = a.index_of_first('/')->0;
        a.index_of_first_ensures('/');
        let early = a.skip(i + 1);
        lemma_components_cut(a, i);
        assert forall|j: int| 0 <= j < i implies s[j] != '/' by {
            assert(s[j] == a[j]);
        }
        lemma_components_cut(s, i);
        assert(s.take(i) =~= a.take(i));
        assert(s.skip(i + 1) =~= early + seq!['/'] + b);
        paths_are_joined_by_slashes(early, b);
        let first = if i > 0 {
            seq![a.take(i)]
        } else {
            Seq::<Seq<char>>::empty()
        };
        assert(first + (components(early) + components(b)) =~= (first + components(early))
            + components(b));
    } else {
        let i: int = a.len() as int;
        assert forall|j: int| 0 <= j < a.len() implies a[j] != '/' by {
            assert(a.contains(a[j]));
        }
        assert forall|j: int| 0 <= j < i implies s[j] != '/' by {
            assert(s[j] == a[j]);
        }
        lemma_components_whole(a);
        lemma_components_cut(s, i);
        assert(s.take(i) =~= a);
        assert(s.skip(i + 1) =~= b);
    }
}

/// A path without a slash is one name, and an empty one has none.
pub proof fn plain_names_are_paths(name: Seq<char>)
    requires
        !name.contains('/'),
    ensures
        name.len() > 0 ==> components(name) == seq![name],
        name.len() == 0 ==> components(name).len() == 0,
{
    assert forall|j: int| 0 <= j < name.len() implies name[j] != '/' by {
        assert(name.contains(name[j]));
    }
    lemma_components_whole(name);
}

/// Of the ASCII characters, the space and those from the tab to the carriage return are white space.
pub proof fn ascii_white_space(c: char)
    requires
        c as u32 <= 127,
    ensures
        white_space(c) <==> c == ' ' || '\t' <= c <= '\r',
{
}

/// Splitting a list of which the first part has no separator takes that part off.
pub proof fn lists_split_part_by_part(a: Seq<char>, c: char, b: Seq<char>)
    requires
        !a.contains(c),
    ensures
        split_on(a + seq![c] + b, c) == seq![a] + split_on(b, c),
        split_on(a, c) == seq![a],
{
    strings_split_at_the_first(a, c, b);
}

} // verus!
