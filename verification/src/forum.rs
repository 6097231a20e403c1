//! The addresses and the numbers of the pages of a wiki that are read one
//! after the other: of its forum, and of the listings on its pages.
use vstd::prelude::*;
use vstd::string::StringExecFns;
use crate::file_size::{all_digits, digit, digits_value, is_digit, lemma_digits_value_nonnegative};
use crate::text::{chars_of, copy_text, split, split_on, text_of_range, texts};
use crate::txm::{decimal_text, integer_text};

verus! {

/// The address of the forum of a site, or of the list of its hidden threads.
pub open spec fn forum_address_of(site: Seq<char>, forum_path: Seq<char>, hidden: bool) -> Seq<char> {
    if hidden {
        site + forum_path + "/hidden/show"@
    } else {
        site + forum_path
    }
}

/// The address of the forum of a site.
pub fn forum_address(site: &str, forum_path: &str, hidden: bool) -> (address: String)
    ensures
        address@ == forum_address_of(site@, forum_path@, hidden),
{
    let address = copy_text(site).concat(forum_path);
    if hidden {
        address.concat("/hidden/show")
    } else {
        address
    }
}

/// The address of one page of a listing that goes over several pages.
pub fn page_address(listing: &str, number: i64) -> (address: String)
    ensures
        address@ == listing@ + "/p/"@ + integer_text(number as int),
{
    copy_text(listing).concat("/p/").concat(decimal_text(number).as_str())
}

/// The position of the last occurrence of `c` in `s`, or -1.
pub open spec fn last_index_of(s: Seq<char>, c: char) -> int
    decreases s.len(),
{
    if s.len() == 0 {
        -1
    } else if s.last() == c {
        s.len() - 1
    } else {
        last_index_of(s.drop_last(), c)
    }
}

/// What a link inside the site points at, without its last piece: the link
/// must begin with a slash, which is dropped, and hold one more slash, at the
/// last of which it is cut. Nothing for any other link.
pub open spec fn link_target_of(href: Seq<char>) -> Option<Seq<char>> {
    if href.len() > 0 && href[0] == '/' {
        let path = href.skip(1);
        let cut = last_index_of(path, '/');
        if cut >= 0 {
            Some(path.take(cut))
        } else {
            None
        }
    } else {
        None
    }
}

/// What `last_index_of` finds.
pub proof fn lemma_last_index_of(s: Seq<char>, c: char)
    ensures
        -1 <= last_index_of(s, c) < s.len(),
        last_index_of(s, c) >= 0 ==> s[last_index_of(s, c)] == c,
        forall|k: int| last_index_of(s, c) < k < s.len() ==> s[k] != c,
    decreases s.len(),
{
    if s.len() > 0 && s.last() != c {
        lemma_last_index_of(s.drop_last(), c);
        assert forall|k: int| last_index_of(s, c) < k < s.len() implies s[k] != c by {
            if k < s.len() - 1 {
                assert(s.drop_last()[k] == s[k]);
            }
        }
        if last_index_of(s, c) >= 0 {
            assert(s.drop_last()[last_index_of(s, c)] == s[last_index_of(s, c)]);
        }
    }
}

/// The position with the properties of `last_index_of` is `last_index_of`.
pub proof fn lemma_last_index_is(s: Seq<char>, c: char, at: int)
    requires
        -1 <= at < s.len(),
        at >= 0 ==> s[at] == c,
        forall|k: int| at < k < s.len() ==> s[k] != c,
    ensures
        last_index_of(s, c) == at,
{
    lemma_last_index_of(s, c);
}

/// The address that a link inside a site stands for, without its last piece.
pub fn link_target(site: &str, href: &str) -> (address: Option<String>)
    ensures
        match address {
            Some(text) => link_target_of(href@) matches Some(target) && text@ == site@ + target,
            None => link_target_of(href@) is None,
        },
{
    let chars = chars_of(href);
    if chars.len() == 0 || chars[0] != '/' {
        return None;
    }
    let ghost path = chars@.skip(1);
    let mut at: usize = chars.len();
    while at > 1 && chars[at - 1] != '/'
        invariant
            1 <= at <= chars.len(),
            path == chars@.skip(1),
            forall|k: int| at - 1 <= k < path.len() ==> path[k] != '/',
        decreases at,
    {
        assert(path[at - 2] == chars@[at - 1]);
        at -= 1;
    }
    if at <= 1 {
        proof {
            lemma_last_index_is(path, '/', -1);
        }
        return None;
    }
    proof {
        assert(path[at - 2] == chars@[at - 1]);
        lemma_last_index_is(path, '/', at - 2);
        assert(path.take(at - 2) == chars@.subrange(1, at - 1));
    }
    let target = text_of_range(&chars, 1, at - 1);
    Some(copy_text(site).concat(target.as_str()))
}

/// The whole number that a text writes in the range of `i32`: an optional
/// sign and decimal digits, one at least. Nothing for any other text.
pub open spec fn i32_of(text: Seq<char>) -> Option<int> {
    let signed = text.len() > 0 && (text[0] == '-' || text[0] == '+');
    let digits = if signed {
        text.skip(1)
    } else {
        text
    };
    let value = if signed && text[0] == '-' {
        -digits_value(digits)
    } else {
        digits_value(digits)
    };
    if digits.len() > 0 && all_digits(digits) && i32::MIN <= value <= i32::MAX {
        Some(value)
    } else {
        None
    }
}

/// Reads a whole number in the range of `i32`.
pub fn parse_i32(text: &str) -> (r: Option<i32>)
    ensures
        match r {
            Some(n) => i32_of(text@) == Some(n as int),
            None => i32_of(text@) is None,
        },
{
    let chars = chars_of(text);
    let signed = chars.len() > 0 && (chars[0] == '-' || chars[0] == '+');
    let start: usize = if signed {
        1
    } else {
        0
    };
    let ghost digits = chars@.skip(start as int);
    if chars.len() == start {
        return None;
    }
    let limit: u64 = 0x8000_0001;
    let mut acc: u64 = 0;
    let mut i: usize = start;
    assert(digits.take(0) == Seq::<char>::empty());
    while i < chars.len()
        invariant
            start <= i <= chars.len(),
            start < chars.len(),
            chars@ == text@,
            signed == (chars@.len() > 0 && (chars@[0] == '-' || chars@[0] == '+')),
            start == if signed {
                1usize
            } else {
                0usize
            },
            digits == chars@.skip(start as int),
            all_digits(digits.take(i - start)),
            acc == if digits_value(digits.take(i - start)) > limit {
                limit as int
            } else {
                digits_value(digits.take(i - start))
            },
            limit == 0x8000_0001,
        decreases chars.len() - i,
    {
        let c = chars[i];
        assert(digits[i - start] == c);
        if !('0' <= c && c <= '9') {
            assert(!is_digit(digits[i - start]));
            return None;
        }
        proof {
            let next = digits.take(i - start + 1);
            assert(next.drop_last() == digits.take(i - start));
            assert(next.last() == c);
            lemma_digits_value_nonnegative(digits.take(i - start));
            assert forall|k: int| 0 <= k < next.len() implies is_digit(#[trigger] next[k]) by {
                if k < i - start {
                    assert(next[k] == digits.take(i - start)[k]);
                }
            }
        }
        acc = acc * 10 + digit(c);
        if acc > limit {
            acc = limit;
        }
        i += 1;
    }
    assert(digits.take(chars@.len() - start) == digits);
    proof {
        lemma_digits_value_nonnegative(digits);
        assert(digits.len() > 0 && all_digits(digits));
        assert(digits == if signed {
            text@.skip(1)
        } else {
            text@
        });
    }
    if signed && chars[0] == '-' {
        if acc > 0x8000_0000 {
            None
        } else if acc == 0x8000_0000 {
            Some(i32::MIN)
        } else {
            Some(-(acc as i32))
        }
    } else if acc > 0x7fff_ffff {
        None
    } else {
        Some(acc as i32)
    }
}

/// The number of pages that a pager announces: the number in its last word,
/// as in `page 1 of 12`; one page where there is no pager or no number in it.
pub open spec fn page_count_of(pager: Option<Seq<char>>) -> int {
    match pager {
        Some(text) => match i32_of(split_on(text, ' ').last()) {
            Some(n) => n,
            None => 1,
        },
        None => 1,
    }
}

/// The number of pages that a pager announces.
pub fn page_count(pager: Option<&str>) -> (count: i32)
    ensures
        count == page_count_of(
            match pager {
                Some(text) => Some(text@),
                None => None,
            },
        ),
{
    match pager {
        Some(text) => {
            let words = split(text, ' ');
            let last = &words[words.len() - 1];
            assert(texts(words@).last() == last@);
            match parse_i32(last.as_str()) {
                Some(n) => n,
                None => 1,
            }
        },
        None => 1,
    }
}

/// Whether as many threads were found as the site announces; so it is where
/// it announces none.
pub fn threads_match(announced: Option<i32>, found: usize) -> (r: bool)
    ensures
        r == match announced {
            Some(n) => n == found,
            None => true,
        },
{
    match announced {
        Some(n) => n >= 0 && n as usize == found,
        None => true,
    }
}

} // verus!
