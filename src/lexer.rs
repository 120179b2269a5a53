//! Splitting a source line into words: comments dropped, spaces separate.
use vstd::prelude::*;
use crate::syntax::string_texts;

verus! {

broadcast use vstd::std_specs::vec::group_vec_axioms;

/// The part of a line before its first `#`.
pub open spec fn code_part(s: Seq<char>) -> Seq<char>
    decreases s.len(),
{
    if s.len() == 0 || s[0] == '#' {
        Seq::empty()
    } else {
        seq![s[0]] + code_part(s.drop_first())
    }
}

/// Reading `s` from the left: the words completed so far, and the word being read.
pub open spec fn scan_words(s: Seq<char>) -> (Seq<Seq<char>>, Seq<char>)
    decreases s.len(),
{
    if s.len() == 0 {
        (Seq::empty(), Seq::empty())
    } else {
        let (ws, cur) = scan_words(s.drop_last());
        if s.last() == ' ' {
            if cur.len() > 0 {
                (ws.push(cur), Seq::empty())
            } else {
                (ws, cur)
            }
        } else {
            (ws, cur.push(s.last()))
        }
    }
}

/// The non-empty space-separated fields of `s`.
pub open spec fn words(s: Seq<char>) -> Seq<Seq<char>> {
    let (ws, cur) = scan_words(s);
    if cur.len() > 0 {
        ws.push(cur)
    } else {
        ws
    }
}

/// The words of a source line, its comment left out.
pub open spec fn line_words(s: Seq<char>) -> Seq<Seq<char>> {
    words(code_part(s))
}

/// The words of every line of a source.
pub open spec fn source_words(lines: Seq<String>) -> Seq<Seq<Seq<char>>> {
    lines.map_values(|s: String| line_words(s@))
}

proof fn lemma_code_part_step(s: Seq<char>, i: int)
    requires
        0 <= i < s.len(),
        s[i] != '#',
    ensures
        code_part(s.subrange(i, s.len() as int)) == seq![s[i]] + code_part(s.subrange(i + 1, s.len() as int)),
{
    let t = s.subrange(i, s.len() as int);
    assert(t.drop_first() =~= s.subrange(i + 1, s.len() as int));
}

/// The words of `line`, its comment left out.
pub fn split_words(line: &String) -> (r: Vec<String>)
    ensures
        string_texts(r@) == line_words(line@),
{
    let s = line.as_str();
    let n = s.unicode_len();
    let mut out: Vec<String> = Vec::new();
    let mut start: usize = 0;
    let mut i: usize = 0;
    let mut hit = false;
    proof {
        assert(s@.subrange(0, 0) + code_part(s@.subrange(0, n as int)) =~= code_part(s@)) by {
            assert(s@.subrange(0, n as int) =~= s@);
        }
        assert(s@.subrange(0, 0) =~= Seq::<char>::empty());
    }
    while i < n && !hit
        invariant
            hit ==> i < n && s@[i as int] == '#',
            n == s@.len(),
            s@ == line@,
            start <= i <= n,
            code_part(s@) == s@.subrange(0, i as int) + code_part(s@.subrange(i as int, n as int)),
            scan_words(s@.subrange(0, i as int)) == (string_texts(out@), s@.subrange(start as int, i as int)),
        decreases n - i + (if hit { 0int } else { 1int }),
    {
        let c = s.get_char(i);
        if c == '#' {
            hit = true;
            continue;
        }
        proof {
            lemma_code_part_step(s@, i as int);
            assert(s@.subrange(0, i + 1) =~= s@.subrange(0, i as int) + seq![c]);
            assert(s@.subrange(0, i + 1).drop_last() =~= s@.subrange(0, i as int));
        }
        if c == ' ' {
            if start < i {
                let w = s.substring_char(start, i);
                let ghost prev = out@;
                out.push(String::from_str(w));
                proof {
                    assert(string_texts(out@) =~= string_texts(prev).push(s@.subrange(start as int, i as int)));
                }
            }
            start = i + 1;
        } else {
            proof {
                assert(s@.subrange(start as int, i + 1) =~= s@.subrange(start as int, i as int).push(c));
            }
        }
        i = i + 1;
    }
    proof {
        if i < n {
            assert(code_part(s@.subrange(i as int, n as int)) =~= Seq::empty());
        } else {
            assert(code_part(s@.subrange(i as int, n as int)) =~= Seq::empty());
        }
        assert(code_part(s@) =~= s@.subrange(0, i as int));
    }
    if start < i {
        let w = s.substring_char(start, i);
        let ghost prev = out@;
        out.push(String::from_str(w));
        proof {
            assert(string_texts(out@) =~= string_texts(prev).push(s@.subrange(start as int, i as int)));
        }
    }
    proof {
        assert(s@.subrange(0, i as int) =~= code_part(s@));
    }
    out
}

} // verus!
