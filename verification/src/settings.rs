//! Settings that come as text.
use vstd::prelude::*;

use crate::text::{
    decimal, decimal_text, join3, parse_unsigned, parsed_unsigned, same_text, split_on, split_text,
    texts, trim, trimmed,
};

verus! {

/// Those of `pieces` that are more than white space, trimmed.
pub open spec fn kept_pieces(pieces: Seq<Seq<char>>) -> Seq<Seq<char>>
    decreases pieces.len(),
{
    if pieces.len() == 0 {
        Seq::<Seq<char>>::empty()
    } else {
        let before = kept_pieces(pieces.drop_last());
        if trimmed(pieces.last()).len() == 0 {
            before
        } else {
            before.push(trimmed(pieces.last()))
        }
    }
}

/// The items of a list that is written with commas; white space around items
/// and empty items are no matter.
pub open spec fn list_items(text: Seq<char>) -> Seq<Seq<char>> {
    kept_pieces(split_text(text, ','))
}

/// The items of a list that is written with commas.
pub fn parse_list(text: &str) -> (r: Vec<String>)
    ensures
        texts(r@) == list_items(text@),
{
    let pieces: Vec<String> = split_on(text, ',');
    let ghost all = texts(pieces@);
    let mut r: Vec<String> = Vec::new();
    let mut i: usize = 0;
    assert(texts(r@) =~= kept_pieces(all.take(0)));
    while i < pieces.len()
        invariant
            i <= pieces@.len(),
            all == texts(pieces@),
            texts(r@) == kept_pieces(all.take(i as int)),
        decreases pieces@.len() - i,
    {
        let ghost before = texts(r@);
        assert(all.take(i + 1).drop_last() =~= all.take(i as int));
        assert(all.take(i + 1).last() == pieces@[i as int]@);
        let item: String = trim(pieces[i].as_str());
        if !item.as_str().is_empty() {
            r.push(item);
            assert(texts(r@) =~= before.push(item@));
        }
        i = i + 1;
    }
    assert(all.take(all.len() as int) =~= all);
    r
}

/// The addresses of the metadata servers: those of the list, where one is set;
/// otherwise the single one that is set, or the one given.
pub fn metadata_urls(list: Option<&str>, single: Option<&str>, fallback: &str) -> (r: Vec<String>)
    ensures
        texts(r@) == match list {
            Some(text) => list_items(text@),
            None => seq![
                match single {
                    Some(url) => url@,
                    None => fallback@,
                },
            ],
        },
{
    match list {
        Some(text) => parse_list(text),
        None => {
            let url: &str = match single {
                Some(url) => url,
                None => fallback,
            };
            let mut r: Vec<String> = Vec::new();
            r.push(url.to_owned());
            assert(texts(r@) =~= seq![url@]);
            r
        },
    }
}

/// The number that a setting stands for, where it is one of at most `max`.
pub open spec fn number_setting(text: Option<Seq<char>>, max: nat) -> Option<nat> {
    match text {
        Some(t) => parsed_unsigned(t, max),
        None => None,
    }
}

/// A number that may be set; what is no number of at most `max` counts as not
/// set.
pub fn parse_number(text: Option<&str>, max: u64) -> (r: Option<u64>)
    ensures
        match r {
            Some(n) => number_setting(
                match text {
                    Some(t) => Some(t@),
                    None => None,
                },
                max as nat,
            ) == Some(n as nat) && n <= max,
            None => number_setting(
                match text {
                    Some(t) => Some(t@),
                    None => None,
                },
                max as nat,
            ) is None,
        },
{
    match text {
        Some(t) => parse_unsigned(t, max),
        None => None,
    }
}

/// A number that may be set, or else the one given.
pub fn number_or(text: Option<&str>, max: u64, fallback: u64) -> (r: u64)
    ensures
        r == match number_setting(
            match text {
                Some(t) => Some(t@),
                None => None,
            },
            max as nat,
        ) {
            Some(n) => n,
            None => fallback as nat,
        },
{
    match parse_number(text, max) {
        Some(n) => n,
        None => fallback,
    }
}

/// The truth value that a text stands for.
pub open spec fn parsed_bool(text: Seq<char>) -> Option<bool> {
    if text == "true"@ {
        Some(true)
    } else if text == "false"@ {
        Some(false)
    } else {
        None
    }
}

/// The truth value that a text stands for.
pub fn parse_bool(text: &str) -> (r: Option<bool>)
    ensures
        r == parsed_bool(text@),
{
    if same_text(text, "true") {
        Some(true)
    } else if same_text(text, "false") {
        Some(false)
    } else {
        None
    }
}

/// The address under which a storage node registers.
pub fn register_address(ip: &str, port: u16) -> (r: String)
    ensures
        r@ == "http://"@ + ip@ + ":"@ + decimal_text(port as nat),
{
    let mut r: String = join3("http://", ip, ":");
    r.append(decimal(port as u64).as_str());
    r
}

} // verus!
