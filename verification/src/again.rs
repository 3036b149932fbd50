//! The keys that repeat a change.

use vstd::prelude::*;

use crate::command::{count_len, leading_count_len};
use crate::input::{plain_key, Key, KeyCode};
use crate::strings::{chars_of, fmt_usize, nat_text};

verus! {

/// The keys that type a text.
pub open spec fn typing_keys(t: Seq<char>) -> Seq<Key>
    decreases t.len(),
{
    if t.len() == 0 {
        Seq::empty()
    } else {
        typing_keys(t.drop_last()).push(plain_key(KeyCode::Char(t.last())))
    }
}

/// The keys that repeat a change: a count takes the place of the one that it had.
pub open spec fn keys_again(last: Seq<Key>, count: Option<usize>) -> Seq<Key> {
    match count {
        Some(n) => typing_keys(nat_text(n as nat)) + last.skip(count_len(last, 0) as int),
        None => last,
    }
}

fn push_from(out: &mut Vec<Key>, keys: &Vec<Key>, from: usize)
    requires
        from <= keys@.len(),
    ensures
        final(out)@ == old(out)@ + keys@.skip(from as int),
{
    let mut i: usize = from;
    assert(out@ =~= old(out)@ + keys@.subrange(from as int, from as int));
    while i < keys.len()
        invariant
            from <= i <= keys@.len(),
            out@ == old(out)@ + keys@.subrange(from as int, i as int),
        decreases keys@.len() - i,
    {
        out.push(keys[i]);
        assert(out@ =~= old(out)@ + keys@.subrange(from as int, i + 1));
        i += 1;
    }
    assert(keys@.subrange(from as int, i as int) =~= keys@.skip(from as int));
}

/// The keys that repeat a change.
pub fn repeat_keys(last: &Vec<Key>, count: Option<usize>) -> (keys: Vec<Key>)
    ensures
        keys@ == keys_again(last@, count),
{
    let mut keys: Vec<Key> = Vec::new();
    match count {
        None => {
            push_from(&mut keys, last, 0);
            assert(keys@ =~= last@);
        },
        Some(n) => {
            let text = fmt_usize(n);
            let digits = chars_of(text.as_str());
            let ghost t = nat_text(n as nat);
            let mut i: usize = 0;
            assert(t.take(0) =~= Seq::<char>::empty());
            while i < digits.len()
                invariant
                    digits@ == t,
                    i <= digits@.len(),
                    keys@ == typing_keys(t.take(i as int)),
                decreases digits@.len() - i,
            {
                assert(t.take(i + 1).drop_last() =~= t.take(i as int));
                keys.push(Key::char(digits[i]));
                i += 1;
            }
            assert(t.take(i as int) =~= t);
            let from: usize = leading_count_len(last.as_slice());
            push_from(&mut keys, last, from);
        },
    }
    keys
}

} // verus!
