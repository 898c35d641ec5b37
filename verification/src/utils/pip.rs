//! The extra package indexes of a global `pip.conf`.
use vstd::prelude::*;
use crate::text::{
    chars_of, find_char_chars, lemma_find_char, lines, lines_chars, split_once, starts_with,
    starts_with_lit, string_of, trim, trim_chars, vecs_view, strs_view,
};

verus! {

/// The URLs of the `extra-index-url = ...` lines of a `pip.conf` text.
pub open spec fn extra_index_urls(ls: Seq<Seq<char>>) -> Seq<Seq<char>>
    decreases ls.len(),
{
    if ls.len() == 0 {
        seq![]
    } else {
        let rest = extra_index_urls(ls.drop_last());
        let t = trim(ls.last());
        if starts_with(t, "extra-index-url"@) {
            match split_once(t, '=') {
                Some((_, v)) => rest.push(trim(v)),
                None => rest,
            }
        } else {
            rest
        }
    }
}

/// The extra index URLs in the text of a `pip.conf` file
pub fn parse_pip_conf(content: &str) -> (r: Vec<String>)
    ensures
        strs_view(r@) == extra_index_urls(lines(content@)),
{
    let c = chars_of(content);
    let ls = lines_chars(c.as_slice());
    let ghost lv = vecs_view(ls@);
    let mut r: Vec<String> = Vec::new();
    let mut i: usize = 0;
    while i < ls.len()
        invariant
            i <= ls@.len(),
            lv == vecs_view(ls@),
            lv == lines(content@),
            strs_view(r@) == extra_index_urls(lv.take(i as int)),
        decreases ls.len() - i,
    {
        proof {
            assert(lv.take(i + 1).drop_last() =~= lv.take(i as int));
            assert(lv.take(i + 1).last() == ls@[i as int]@);
        }
        let t = trim_chars(ls[i].as_slice());
        if starts_with_lit(t, "extra-index-url") {
            match find_char_chars(t, '=') {
                Some(k) => {
                    proof { lemma_find_char(t@, '='); }
                    let n = t.len();
                    let v = &t[k + 1..n];
                    assert(v@ =~= t@.skip(k + 1));
                    let ghost before = r@;
                    r.push(string_of(trim_chars(v)));
                    assert(strs_view(r@) =~= strs_view(before).push(trim(v@)));
                },
                None => {},
            }
        }
        i = i + 1;
    }
    assert(lv.take(ls@.len() as int) =~= lv);
    r
}

} // verus!
