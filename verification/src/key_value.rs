//! Lists of key and value pairs written as `key=value&key=value`.

use vstd::prelude::*;
use vstd::string::{StrSliceExecFns, StringExecFns};

verus! {

/// The character ends a key or a value.
pub open spec fn is_separator(c: char) -> bool {
    c == '&' || c == '='
}

/// The place of the first separator in a text; its length where it holds
/// none.
pub open spec fn first_separator(s: Seq<char>) -> int
    decreases s.len(),
{
    if s.len() == 0 {
        0
    } else if is_separator(s[0]) {
        0
    } else {
        1 + first_separator(s.drop_first())
    }
}

/// The pieces between the separators of a text, in order. A text without
/// separators is one piece; two separators in a row hold an empty piece.
pub open spec fn split_pieces(s: Seq<char>) -> Seq<Seq<char>>
    decreases s.len(),
{
    let i = first_separator(s);
    if 0 <= i < s.len() {
        seq![s.subrange(0, i)] + split_pieces(s.subrange(i + 1, s.len() as int))
    } else {
        seq![s]
    }
}

/// The pieces taken two by two as key and value; a last piece without a
/// partner is left out.
pub open spec fn pair_up(pieces: Seq<Seq<char>>) -> Seq<(Seq<char>, Seq<char>)> {
    Seq::new(pieces.len() / 2, |i: int| (pieces[2 * i], pieces[2 * i + 1]))
}

/// The pairs that a text holds.
pub open spec fn parse_spec(s: Seq<char>) -> Seq<(Seq<char>, Seq<char>)> {
    pair_up(split_pieces(s))
}

/// The text of a list of pairs: each pair as `key=value`, with `&` between
/// two pairs.
pub open spec fn render_spec(pairs: Seq<(Seq<char>, Seq<char>)>) -> Seq<char>
    decreases pairs.len(),
{
    if pairs.len() == 0 {
        Seq::empty()
    } else if pairs.len() == 1 {
        pairs[0].0 + seq!['='] + pairs[0].1
    } else {
        render_spec(pairs.drop_last()) + seq!['&'] + pairs.last().0 + seq!['='] + pairs.last().1
    }
}

/// Where no separator stands before place `i` and one stands there, place
/// `i` is the first separator.
pub proof fn lemma_first_separator(s: Seq<char>, i: int)
    requires
        0 <= i <= s.len(),
        forall|j: int| 0 <= j < i ==> !is_separator(#[trigger] s[j]),
        i < s.len() ==> is_separator(s[i]),
    ensures
        first_separator(s) == i,
    decreases i,
{
    if i > 0 {
        let t = s.drop_first();
        assert forall|j: int| 0 <= j < i - 1 implies !is_separator(#[trigger] t[j]) by {
            assert(t[j] == s[j + 1]);
        }
        lemma_first_separator(t, i - 1);
    }
}

/// A list of key and value pairs.
#[derive(Debug)]
pub struct KeyValue(pub Vec<(String, String)>);

impl View for KeyValue {
    type V = Seq<(Seq<char>, Seq<char>)>;

    open spec fn view(&self) -> Seq<(Seq<char>, Seq<char>)> {
        Seq::new(self.0@.len(), |i: int| (self.0@[i].0@, self.0@[i].1@))
    }
}

impl KeyValue {
    /// The list of the given pairs.
    pub fn from(input: &[(&str, &str)]) -> (r: Self)
        ensures
            r@ == Seq::new(input@.len(), |i: int| (input@[i].0@, input@[i].1@)),
    {
        let mut vec: Vec<(String, String)> = Vec::new();
        let mut i: usize = 0;
        while i < input.len()
            invariant
                i <= input@.len(),
                vec@.len() == i,
                forall|j: int| 0 <= j < i ==> vec@[j].0@ == input@[j].0@ && vec@[j].1@ == input@[j].1@,
            decreases input@.len() - i,
        {
            let k = String::from_str(input[i].0);
            let v = String::from_str(input[i].1);
            vec.push((k, v));
            i += 1;
        }
        let r = KeyValue(vec);
        assert(r@ =~= Seq::new(input@.len(), |i: int| (input@[i].0@, input@[i].1@)));
        r
    }

    /// The pairs that a text holds: the text is cut at every `&` and `=`,
    /// and the pieces are taken two by two.
    pub fn parse(input: &str) -> (r: Self)
        ensures
            r@ == parse_spec(input@),
    {
        let pieces = split(input);
        let mut vec: Vec<(String, String)> = Vec::new();
        let total: usize = pieces.len();
        let n: usize = total / 2;
        let mut i: usize = 0;
        while i < n
            invariant
                i <= n,
                total == pieces@.len(),
                n == total / 2,
                vec@.len() == i,
                forall|j: int|
                    0 <= j < i ==> vec@[j].0@ == pieces@[2 * j]@ && vec@[j].1@ == pieces@[2 * j + 1]@,
            decreases n - i,
        {
            let k = pieces[2 * i].clone();
            let v = pieces[2 * i + 1].clone();
            vec.push((k, v));
            i += 1;
        }
        let r = KeyValue(vec);
        assert(r@ =~= parse_spec(input@));
        r
    }

    /// The text of the list.
    pub fn to_string(&self) -> (r: String)
        ensures
            r@ == render_spec(self@),
    {
        let mut out = String::new();
        let mut i: usize = 0;
        proof {
            reveal_strlit("&");
            reveal_strlit("=");
        }
        while i < self.0.len()
            invariant
                i <= self.0@.len(),
                "&"@ == seq!['&'],
                "="@ == seq!['='],
                out@ == render_spec(self@.subrange(0, i as int)),
            decreases self.0@.len() - i,
        {
            let ghost before = self@.subrange(0, i as int);
            let ghost after = self@.subrange(0, i + 1);
            proof {
                assert(after.drop_last() =~= before);
                assert(after.last() == (self.0@[i as int].0@, self.0@[i as int].1@));
            }
            if i > 0 {
                out.append("&");
            }
            out.append(self.0[i].0.as_str());
            out.append("=");
            out.append(self.0[i].1.as_str());
            proof {
                if i == 0 {
                    assert(out@ =~= after[0].0 + seq!['='] + after[0].1);
                } else {
                    assert(out@ =~= render_spec(before) + seq!['&'] + after.last().0 + seq!['=']
                        + after.last().1);
                }
            }
            i += 1;
        }
        assert(self@.subrange(0, self.0@.len() as int) =~= self@);
        out
    }
}

/// The pieces between the separators of a text.
pub fn split(input: &str) -> (pieces: Vec<String>)
    ensures
        pieces@.len() == split_pieces(input@).len(),
        forall|i: int| 0 <= i < pieces@.len() ==> (#[trigger] pieces@[i])@ == split_pieces(input@)[i],
{
    let len: usize = input.unicode_len();
    let mut pieces: Vec<String> = Vec::new();
    let mut start: usize = 0;
    let mut i: usize = 0;
    let ghost mut done: Seq<Seq<char>> = Seq::empty();
    proof {
        assert(input@.subrange(0, len as int) =~= input@);
    }
    while i < len
        invariant
            len == input@.len(),
            start <= i <= len,
            forall|j: int| start <= j < i ==> !is_separator(#[trigger] input@[j]),
            pieces@.len() == done.len(),
            forall|j: int| 0 <= j < pieces@.len() ==> (#[trigger] pieces@[j])@ == done[j],
            done + split_pieces(input@.subrange(start as int, len as int)) == split_pieces(input@),
        decreases len - i,
    {
        let c = input.get_char(i);
        if c == '&' || c == '=' {
            let piece = String::from_str(input.substring_char(start, i));
            proof {
                let rest = input@.subrange(start as int, len as int);
                assert forall|j: int| 0 <= j < i - start implies !is_separator(
                    #[trigger] rest[j],
                ) by {
                    assert(rest[j] == input@[start + j]);
                }
                lemma_first_separator(rest, i - start);
                assert(rest.subrange(0, i - start) =~= input@.subrange(start as int, i as int));
                assert(rest.subrange(i - start + 1, rest.len() as int) =~= input@.subrange(
                    i + 1,
                    len as int,
                ));
                let next = done.push(piece@);
                assert(next + split_pieces(input@.subrange(i + 1, len as int)) =~= done
                    + split_pieces(rest));
                done = next;
            }
            pieces.push(piece);
            start = i + 1;
        }
        i += 1;
    }
    let piece = String::from_str(input.substring_char(start, len));
    proof {
        let rest = input@.subrange(start as int, len as int);
        assert forall|j: int| 0 <= j < len - start implies !is_separator(#[trigger] rest[j]) by {
            assert(rest[j] == input@[start + j]);
        }
        lemma_first_separator(rest, len - start);
        assert(done.push(piece@) =~= done + split_pieces(rest));
    }
    pieces.push(piece);
    pieces
}

} // verus!
