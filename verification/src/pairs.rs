//! Trading pairs and the list of pairs to track.

use vstd::prelude::*;
use vstd::string::*;
use crate::text::{joined, push_char};

verus! {

/// A trading pair: its symbol in normal form, without white space around
/// it and with the letters `A` to `Z` in lower case; every other character
/// is kept as it is. The symbol never changes once the pair is made.
#[derive(Debug)]
pub struct TradingPair {
    symbol: String,
}

impl View for TradingPair {
    type V = Seq<char>;

    /// The symbol.
    closed spec fn view(&self) -> Seq<char> {
        self.symbol@
    }
}

/// Whether `c` is white space, as Unicode's property White_Space has it:
/// U+0009 to U+000D, U+0020, U+0085, U+00A0, U+1680, U+2000 to U+200A,
/// U+2028, U+2029, U+202F, U+205F or U+3000.
pub open spec fn is_blank(c: char) -> bool {
    let n = c as u32;
    ||| 0x0009 <= n <= 0x000D
    ||| n == 0x0020
    ||| n == 0x0085
    ||| n == 0x00A0
    ||| n == 0x1680
    ||| 0x2000 <= n <= 0x200A
    ||| n == 0x2028
    ||| n == 0x2029
    ||| n == 0x202F
    ||| n == 0x205F
    ||| n == 0x3000
}

/// `c` in lower case where it is one of the letters `A` to `Z`, else `c`.
pub open spec fn lower(c: char) -> char {
    if 'A' as u32 <= c as u32 <= 'Z' as u32 {
        ((c as u32) + 32) as char
    } else {
        c
    }
}

/// `s` without the white space that it begins with.
pub open spec fn without_leading_blanks(s: Seq<char>) -> Seq<char>
    decreases s.len(),
{
    if s.len() > 0 && is_blank(s[0]) {
        without_leading_blanks(s.drop_first())
    } else {
        s
    }
}

/// `s` without the white space that it ends with.
pub open spec fn without_trailing_blanks(s: Seq<char>) -> Seq<char>
    decreases s.len(),
{
    if s.len() > 0 && is_blank(s.last()) {
        without_trailing_blanks(s.drop_last())
    } else {
        s
    }
}

/// The symbol that `text` stands for: `text` without the white space
/// around it, each of the letters `A` to `Z` in lower case.
pub open spec fn symbol_of(text: Seq<char>) -> Seq<char> {
    let core = without_trailing_blanks(without_leading_blanks(text));
    Seq::new(core.len(), |i: int| lower(core[i]))
}

/// The fields of `text`, which commas separate: one more than it has
/// commas, each without a comma, some perhaps empty.
pub open spec fn fields(text: Seq<char>) -> Seq<Seq<char>>
    decreases text.len(),
{
    if text.len() == 0 {
        seq![Seq::<char>::empty()]
    } else {
        let before = fields(text.drop_last());
        if text.last() == ',' {
            before.push(Seq::<char>::empty())
        } else {
            before.drop_last().push(before.last().push(text.last()))
        }
    }
}

/// The fields of a text are what its commas separate: there is at least
/// one, none holds a comma, and with a comma between each two of them they
/// are the text again.
pub proof fn lemma_fields(text: Seq<char>)
    ensures
        fields(text).len() >= 1,
        forall|k: int| 0 <= k < fields(text).len() ==> !(#[trigger] fields(text)[k]).contains(','),
        joined(fields(text), seq![',']) == text,
    decreases text.len(),
{
    if text.len() == 0 {
        assert(joined(fields(text), seq![',']) =~= text);
    } else {
        let rest = text.drop_last();
        let before = fields(rest);
        let now = fields(text);
        lemma_fields(rest);
        assert(text =~= rest.push(text.last()));
        if text.last() == ',' {
            assert(now.drop_last() =~= before);
            assert(joined(now, seq![',']) =~= text);
        } else {
            let grown = before.last().push(text.last());
            assert(now.drop_last() =~= before.drop_last());
            assert(now.last() == grown);
            assert(!grown.contains(',')) by {
                if grown.contains(',') {
                    let i = choose|i: int| 0 <= i < grown.len() && grown[i] == ',';
                    assert(before.last()[i] == ',');
                    assert(before.last().contains(','));
                }
            }
            assert forall|k: int| 0 <= k < now.len() implies !(#[trigger] now[k]).contains(',') by {
                if k < now.len() - 1 {
                    assert(now[k] == before[k]);
                }
            }
            if before.len() == 1 {
                assert(joined(now, seq![',']) =~= text);
            } else {
                assert(joined(now, seq![',']) =~= joined(before, seq![',']).push(text.last()));
            }
        }
    }
}

/// Whether `c` is white space.
pub fn blank(c: char) -> (b: bool)
    ensures
        b == is_blank(c),
{
    let n: u32 = c as u32;
    (0x0009 <= n && n <= 0x000D) || n == 0x0020 || n == 0x0085 || n == 0x00A0 || n == 0x1680 || (
    0x2000 <= n && n <= 0x200A) || n == 0x2028 || n == 0x2029 || n == 0x202F || n == 0x205F || n
        == 0x3000
}

/// `c` in lower case where it is one of the letters `A` to `Z`, else `c`.
pub fn to_lower(c: char) -> (l: char)
    ensures
        l == lower(c),
{
    let n: u32 = c as u32;
    if 65 <= n && n <= 90 {
        ((n + 32) as u8) as char
    } else {
        c
    }
}

proof fn lemma_leading(s: Seq<char>, from: int)
    requires
        0 <= from <= s.len(),
        forall|k: int| 0 <= k < from ==> is_blank(#[trigger] s[k]),
        from < s.len() ==> !is_blank(s[from]),
    ensures
        without_leading_blanks(s) == s.subrange(from, s.len() as int),
    decreases from,
{
    if from == 0 {
        assert(s.subrange(0, s.len() as int) =~= s);
    } else {
        let t = s.drop_first();
        assert forall|k: int| 0 <= k < from - 1 implies is_blank(#[trigger] t[k]) by {
            assert(t[k] == s[k + 1]);
        }
        lemma_leading(t, from - 1);
        assert(t.subrange(from - 1, t.len() as int) =~= s.subrange(from, s.len() as int));
    }
}

proof fn lemma_trailing(s: Seq<char>, to: int)
    requires
        0 <= to <= s.len(),
        forall|k: int| to <= k < s.len() ==> is_blank(#[trigger] s[k]),
        to > 0 ==> !is_blank(s[to - 1]),
    ensures
        without_trailing_blanks(s) == s.subrange(0, to),
    decreases s.len() - to,
{
    if to == s.len() {
        assert(s.subrange(0, to) =~= s);
    } else {
        let t = s.drop_last();
        assert forall|k: int| to <= k < t.len() implies is_blank(#[trigger] t[k]) by {
            assert(t[k] == s[k]);
        }
        lemma_trailing(t, to);
        assert(t.subrange(0, to) =~= s.subrange(0, to));
    }
}

impl TradingPair {
    /// The pair that `text` names. White space around the symbol is
    /// dropped and the letters `A` to `Z` are put in lower case; letters
    /// outside `A` to `Z` are kept as they are. Any text is taken.
    pub fn new(text: &str) -> (pair: TradingPair)
        ensures
            pair@ == symbol_of(text@),
    {
        let n: usize = text.unicode_len();
        let mut from: usize = 0;
        while from < n && blank(text.get_char(from))
            invariant
                from <= n,
                n == text@.len(),
                forall|k: int| 0 <= k < from ==> is_blank(#[trigger] text@[k]),
            decreases n - from,
        {
            from = from + 1;
        }
        let mut to: usize = n;
        while to > from && blank(text.get_char(to - 1))
            invariant
                from <= to <= n,
                n == text@.len(),
                forall|k: int| to <= k < n ==> is_blank(#[trigger] text@[k]),
            decreases to,
        {
            to = to - 1;
        }
        let ghost rest = text@.subrange(from as int, n as int);
        let ghost core = text@.subrange(from as int, to as int);
        proof {
            lemma_leading(text@, from as int);
            assert forall|k: int| to - from <= k < rest.len() implies is_blank(
                #[trigger] rest[k],
            ) by {
                assert(rest[k] == text@[from + k]);
            }
            if to > from {
                assert(rest[to - from - 1] == text@[to - 1]);
            }
            lemma_trailing(rest, to - from);
            assert(rest.subrange(0, to - from) =~= core);
        }
        let mut symbol = String::new();
        let mut i: usize = from;
        while i < to
            invariant
                from <= i <= to <= n,
                n == text@.len(),
                core == text@.subrange(from as int, to as int),
                symbol@ == Seq::new((i - from) as nat, |k: int| lower(core[k])),
            decreases to - i,
        {
            let c = to_lower(text.get_char(i));
            push_char(&mut symbol, c);
            i = i + 1;
            assert(symbol@ =~= Seq::new((i - from) as nat, |k: int| lower(core[k])));
        }
        assert(symbol@ =~= symbol_of(text@));
        TradingPair { symbol }
    }

    /// The symbol.
    pub fn symbol(&self) -> (s: &str)
        ensures
            s@ == self@,
    {
        self.symbol.as_str()
    }

    /// Whether `self` and `other` are the same pair.
    pub fn same_as(&self, other: &TradingPair) -> (b: bool)
        ensures
            b == (self@ == other@),
    {
        self.symbol == other.symbol
    }
}

impl Clone for TradingPair {
    fn clone(&self) -> (pair: TradingPair)
        ensures
            pair@ == self@,
    {
        TradingPair { symbol: self.symbol.clone() }
    }
}

/// The pairs that `text` lists, separated by commas, in the order in which
/// it lists them: one pair for each field, an empty field too.
pub fn parse_pairs(text: &str) -> (pairs: Vec<TradingPair>)
    ensures
        pairs@.len() == fields(text@).len(),
        forall|k: int| 0 <= k < pairs@.len() ==> (#[trigger] pairs@[k])@ == symbol_of(fields(text@)[k]),
{
    let n: usize = text.unicode_len();
    let mut pairs: Vec<TradingPair> = Vec::new();
    let mut start: usize = 0;
    let mut i: usize = 0;
    assert(text@.take(0) =~= Seq::<char>::empty());
    assert(text@.subrange(0, 0) =~= Seq::<char>::empty());
    while i < n
        invariant
            start <= i <= n,
            n == text@.len(),
            fields(text@.take(i as int)).len() == pairs@.len() + 1,
            fields(text@.take(i as int)).last() == text@.subrange(start as int, i as int),
            forall|k: int| 0 <= k < pairs@.len() ==> (#[trigger] pairs@[k])@ == symbol_of(
                fields(text@.take(i as int))[k],
            ),
        decreases n - i,
    {
        let c = text.get_char(i);
        proof {
            let now = text@.take(i + 1);
            assert(now.drop_last() =~= text@.take(i as int));
            assert(now.last() == c);
        }
        if c == ',' {
            pairs.push(TradingPair::new(text.substring_char(start, i)));
            start = i + 1;
            assert(text@.subrange(start as int, start as int) =~= Seq::<char>::empty());
        } else {
            assert(text@.subrange(start as int, i as int).push(c) =~= text@.subrange(
                start as int,
                i + 1,
            ));
        }
        i = i + 1;
    }
    assert(text@.take(n as int) =~= text@);
    pairs.push(TradingPair::new(text.substring_char(start, n)));
    pairs
}

} // verus!
