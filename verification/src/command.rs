use vstd::prelude::*;

verus! {

use crate::chars::string_push;

/// The prompt split at every `/`, keeping empty parts: the textual command
/// grammar's tokenization.
pub open spec fn split_slash(s: Seq<char>) -> Seq<Seq<char>>
    decreases s.len(),
{
    if s.len() == 0 {
        seq![Seq::empty()]
    } else if s.last() == '/' {
        split_slash(s.drop_last()).push(Seq::empty())
    } else {
        let p = split_slash(s.drop_last());
        p.update(p.len() - 1, p.last().push(s.last()))
    }
}

pub proof fn lemma_split_slash_nonempty(s: Seq<char>)
    ensures
        split_slash(s).len() >= 1,
    decreases s.len(),
{
    if s.len() > 0 {
        lemma_split_slash_nonempty(s.drop_last());
    }
}

/// The prompt asks to write the buffer out: exactly `w`.
pub open spec fn wants_write(s: Seq<char>) -> bool {
    split_slash(s) == seq![seq!['w']]
}

/// The prompt asks to substitute: exactly `s/<pattern>/<replacement>/`.
pub open spec fn wants_substitute(s: Seq<char>) -> bool {
    let p = split_slash(s);
    p.len() == 4 && p[0] == seq!['s'] && p[3] == Seq::<char>::empty()
}

/// The prompt asks to remove matches: exactly `s/<pattern>/`.
pub open spec fn wants_remove(s: Seq<char>) -> bool {
    let p = split_slash(s);
    p.len() == 3 && p[0] == seq!['s'] && p[2] == Seq::<char>::empty()
}

/// The prompt asks to highlight matches: exactly `p/<pattern>/`.
pub open spec fn wants_highlight(s: Seq<char>) -> bool {
    let p = split_slash(s);
    p.len() == 3 && p[0] == seq!['p'] && p[2] == Seq::<char>::empty()
}

/// One buffer operation, parsed from the prompt; anything that fits no
/// grammar pattern is a no-op.
pub enum Command {
    Write,
    Substitute(String, String),
    Remove(String),
    Highlight(String),
    Noop,
}

/// Split `s` at every `/` into owned parts.
fn split_prompt(s: &str) -> (parts: Vec<String>)
    ensures
        parts@.map_values(|p: String| p@) == split_slash(s@),
        parts@.len() >= 1,
{
    let ghost f = |p: String| p@;
    let mut parts: Vec<String> = Vec::new();
    parts.push(String::new());
    proof {
        assert(s@.take(0) =~= Seq::<char>::empty());
        assert(parts@.map_values(f) =~= split_slash(s@.take(0)));
    }
    let n = s.unicode_len();
    let mut i: usize = 0;
    while i < n
        invariant
            n == s@.len(),
            i <= n,
            parts@.len() >= 1,
            parts@.map_values(f) == split_slash(s@.take(i as int)),
            f == (|p: String| p@),
        decreases n - i,
    {
        let c = s.get_char(i);
        let ghost pre = s@.take(i as int);
        let ghost cur = s@.take(i + 1);
        proof {
            assert(cur.drop_last() =~= pre);
            assert(cur.last() == s@[i as int]);
            lemma_split_slash_nonempty(pre);
        }
        if c == '/' {
            parts.push(String::new());
            proof {
                assert(parts@.map_values(f) =~= split_slash(pre).push(Seq::empty()));
            }
        } else {
            let last = parts.pop();
            let mut part = last.unwrap();
            string_push(&mut part, c);
            parts.push(part);
            proof {
                let p = split_slash(pre);
                assert(parts@.map_values(f) =~= p.update(p.len() - 1, p.last().push(c)));
            }
        }
        i = i + 1;
    }
    proof {
        assert(s@.take(n as int) =~= s@);
    }
    parts
}

/// Whether `s` is the one-character string `c`.
fn is_char(s: &String, c: char) -> (r: bool)
    ensures
        r <==> s@ == seq![c],
{
    let str_ref = s.as_str();
    if str_ref.unicode_len() == 1 {
        let got = str_ref.get_char(0);
        proof {
            if got == c {
                assert(s@ =~= seq![c]);
            }
        }
        got == c
    } else {
        false
    }
}

/// Whether `s` is empty.
fn is_empty_string(s: &String) -> (r: bool)
    ensures
        r <==> s@ == Seq::<char>::empty(),
{
    let r = s.as_str().unicode_len() == 0;
    proof {
        if r {
            assert(s@ =~= Seq::<char>::empty());
        }
    }
    r
}

/// Parse the prompt against the command grammar: `w` writes,
/// `s/<pattern>/<replacement>/` substitutes, `s/<pattern>/` removes,
/// `p/<pattern>/` highlights, and everything else is a no-op.
pub fn get_command(prompt: &str) -> (c: Command)
    ensures
        c is Write <==> wants_write(prompt@),
        c is Substitute <==> wants_substitute(prompt@),
        c is Remove <==> wants_remove(prompt@),
        c is Highlight <==> wants_highlight(prompt@),
        c matches Command::Substitute(p, r) ==> p@ == split_slash(prompt@)[1] && r@ == split_slash(
            prompt@,
        )[2],
        c matches Command::Remove(p) ==> p@ == split_slash(prompt@)[1],
        c matches Command::Highlight(p) ==> p@ == split_slash(prompt@)[1],
        c is Noop <==> !(wants_write(prompt@) || wants_substitute(prompt@) || wants_remove(
            prompt@,
        ) || wants_highlight(prompt@)),
{
    let parts = split_prompt(prompt);
    let ghost pv = split_slash(prompt@);
    proof {
        let f = |p: String| p@;
        assert(pv.len() == parts@.len());
        assert(forall|k: int| 0 <= k < parts@.len() ==> pv[k] == #[trigger] (parts@[k]@)) by {
            assert(forall|k: int|
                0 <= k < parts@.len() ==> #[trigger] parts@.map_values(f)[k] == f(parts@[k]));
        }
        assert(seq!['s'] != seq!['p']) by {
            assert(seq!['s'][0] != seq!['p'][0]);
        }
        assert(seq!['s'] != seq!['w'] && seq!['p'] != seq!['w']) by {
            assert(seq!['s'][0] != seq!['w'][0] && seq!['p'][0] != seq!['w'][0]);
        }
    }
    if parts.len() == 1 && is_char(&parts[0], 'w') {
        proof {
            assert(pv =~= seq![seq!['w']]);
        }
        Command::Write
    } else if parts.len() == 4 && is_char(&parts[0], 's') && is_empty_string(&parts[3]) {
        Command::Substitute(parts[1].clone(), parts[2].clone())
    } else if parts.len() == 3 && is_char(&parts[0], 's') && is_empty_string(&parts[2]) {
        Command::Remove(parts[1].clone())
    } else if parts.len() == 3 && is_char(&parts[0], 'p') && is_empty_string(&parts[2]) {
        Command::Highlight(parts[1].clone())
    } else {
        proof {
            if wants_write(prompt@) {
                assert(pv[0] == seq!['w']);
            }
        }
        Command::Noop
    }
}

} // verus!
