//! Accumulation and emission policy: the cumulative text of one generation,
//! and what is published for each new fragment.
use vstd::prelude::*;
use vstd::string::*;
use vstd::utf8::encode_utf8;

verus! {

/// Below this many UTF-8 bytes the whole cumulative text is published; from
/// this size on, only the newest fragment is.
pub const FULL_TEXT_LIMIT: usize = 100000;

/// The length of `s` in UTF-8 bytes.
pub open spec fn byte_len(s: Seq<char>) -> nat {
    encode_utf8(s).len()
}

/// What is published after `fragment` has brought the cumulative text to `total`.
pub open spec fn emission(total: Seq<char>, fragment: Seq<char>) -> Seq<char> {
    if byte_len(total) < FULL_TEXT_LIMIT {
        total
    } else {
        fragment
    }
}

/// The fragments joined in order.
pub open spec fn concat_all(frags: Seq<Seq<char>>) -> Seq<char>
    decreases frags.len(),
{
    if frags.len() == 0 {
        Seq::empty()
    } else {
        concat_all(frags.drop_last()) + frags.last()
    }
}

/// The cumulative text after appending each fragment in turn to `start`.
pub open spec fn text_after(start: Seq<char>, frags: Seq<Seq<char>>) -> Seq<char>
    decreases frags.len(),
{
    if frags.len() == 0 {
        start
    } else {
        text_after(start, frags.drop_last()) + frags.last()
    }
}

/// What is published for each fragment when they are appended in turn to `start`.
pub open spec fn emissions_after(start: Seq<char>, frags: Seq<Seq<char>>) -> Seq<Seq<char>>
    decreases frags.len(),
{
    if frags.len() == 0 {
        Seq::empty()
    } else {
        emissions_after(start, frags.drop_last()).push(
            emission(text_after(start, frags), frags.last()),
        )
    }
}

pub proof fn lemma_encode_concat(a: Seq<char>, b: Seq<char>)
    ensures
        encode_utf8(a + b) == encode_utf8(a) + encode_utf8(b),
    decreases a.len(),
{
    if a.len() == 0 {
        assert(a + b =~= b);
        assert(encode_utf8(a) + encode_utf8(b) =~= encode_utf8(b));
    } else {
        assert((a + b).drop_first() =~= a.drop_first() + b);
        assert((a + b)[0] == a[0]);
        lemma_encode_concat(a.drop_first(), b);
        let h = vstd::utf8::encode_scalar(a[0] as u32);
        assert(h + (encode_utf8(a.drop_first()) + encode_utf8(b)) =~= (h + encode_utf8(
            a.drop_first(),
        )) + encode_utf8(b));
    }
}

/// Appending never shortens the text.
pub proof fn lemma_byte_len_grows(a: Seq<char>, b: Seq<char>)
    ensures
        byte_len(a + b) == byte_len(a) + byte_len(b),
        byte_len(a + b) >= byte_len(a),
{
    lemma_encode_concat(a, b);
}

/// Once the text has reached the limit, every later fragment is published
/// alone, not the whole text.
pub proof fn lemma_limit_reached(text: Seq<char>, fragment: Seq<char>)
    requires
        byte_len(text) >= FULL_TEXT_LIMIT,
    ensures
        emission(text + fragment, fragment) == fragment,
{
    lemma_byte_len_grows(text, fragment);
}

/// Fragments appended one by one to an empty text leave their concatenation,
/// and each publication is either the whole text so far (while it is under the
/// limit) or exactly the newest fragment.
pub proof fn lemma_monotonic_accumulation(frags: Seq<Seq<char>>)
    ensures
        text_after(Seq::empty(), frags) == concat_all(frags),
        emissions_after(Seq::empty(), frags).len() == frags.len(),
        forall|i: int|
            #![trigger emissions_after(Seq::empty(), frags)[i]]
            0 <= i < frags.len() ==> emissions_after(Seq::empty(), frags)[i] == (if byte_len(
                concat_all(frags.take(i + 1)),
            ) < FULL_TEXT_LIMIT {
                concat_all(frags.take(i + 1))
            } else {
                frags[i]
            }),
    decreases frags.len(),
{
    if frags.len() > 0 {
        let init = frags.drop_last();
        lemma_monotonic_accumulation(init);
        assert forall|i: int|
            #![trigger emissions_after(Seq::empty(), frags)[i]]
            0 <= i < frags.len() implies emissions_after(Seq::empty(), frags)[i] == (if byte_len(
            concat_all(frags.take(i + 1)),
        ) < FULL_TEXT_LIMIT {
            concat_all(frags.take(i + 1))
        } else {
            frags[i]
        }) by {
            if i < init.len() {
                assert(init.take(i + 1) =~= frags.take(i + 1));
                assert(init[i] == frags[i]);
                assert(emissions_after(Seq::empty(), frags)[i] == emissions_after(
                    Seq::empty(),
                    init,
                )[i]);
            } else {
                assert(frags.take(i + 1) =~= frags);
            }
        }
    }
}

/// The cumulative text of one generation.
pub struct Accumulator {
    pub text: String,
}

impl Accumulator {
    pub fn new() -> (r: Accumulator)
        ensures
            r.text@ == Seq::<char>::empty(),
    {
        Accumulator { text: String::new() }
    }

    /// Appends `fragment` and returns what is to be published for it: the
    /// whole text while it is under the limit, else the fragment alone.
    pub fn append(&mut self, fragment: &str) -> (published: String)
        ensures
            final(self).text@ == old(self).text@ + fragment@,
            published@ == emission(final(self).text@, fragment@),
    {
        self.text.append(fragment);
        if self.text.as_str().as_bytes().len() < FULL_TEXT_LIMIT {
            self.text.clone()
        } else {
            fragment.to_owned()
        }
    }
}

} // verus!
