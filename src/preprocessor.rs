use vstd::prelude::*;

use crate::lexer::{chars_of, string_from_chars};
use crate::module_manager::{Module, ModuleManager};
use crate::span::{lemma_pos_at_bounds, pos_at, Span};

verus! {

/// The characters a module's text may hold.
pub open spec fn is_allowed(c: char) -> bool {
    ('a' <= c && c <= 'z') || ('A' <= c && c <= 'Z') || ('0' <= c && c <= '9') || c == ' ' || c
        == '\n' || c == '\t' || c == ';' || c == '(' || c == ')' || c == '[' || c == ']' || c
        == '{' || c == '}' || c == ',' || c == '+' || c == '-' || c == '*' || c == '/' || c
        == '%' || c == '<' || c == '>' || c == '!' || c == '?' || c == '&' || c == '|' || c
        == '^' || c == '~' || c == '=' || c == ':' || c == '.'
}

/// The index of the first character of `s` from `i` on that is not allowed, or the length.
pub open spec fn first_invalid(s: Seq<char>, i: int) -> int
    decreases s.len() - i,
{
    if 0 <= i < s.len() && is_allowed(s[i]) {
        first_invalid(s, i + 1)
    } else {
        i
    }
}

/// A character outside the allowed set: the module it is in, its position and itself.
#[derive(Debug, Clone, Copy, PartialEq, Eq, Structural)]
pub struct InvalidChar {
    pub module: usize,
    pub span: Span,
    pub ch: char,
}

/// The end of a `//` comment whose text goes on at `i`: the next newline, or the end.
pub open spec fn comment_end(s: Seq<char>, i: int) -> int
    decreases s.len() - i,
{
    if 0 <= i < s.len() && s[i] != '\n' {
        comment_end(s, i + 1)
    } else {
        i
    }
}

pub open spec fn tab_spaces() -> Seq<char> {
    seq![' ', ' ', ' ', ' ']
}

/// The text of `s` from index `i` on, with each `//` comment removed up to (not
/// including) its newline and each tab replaced by four spaces.
pub open spec fn strip_from(s: Seq<char>, i: int) -> Seq<char>
    decreases s.len() - i,
{
    if i < 0 || i >= s.len() {
        Seq::empty()
    } else if s[i] == '\t' {
        tab_spaces() + strip_from(s, i + 1)
    } else if s[i] == '/' && i + 1 < s.len() && s[i + 1] == '/' {
        let j = comment_end(s, i + 2);
        if j <= i || j > s.len() {
            Seq::empty()
        } else {
            strip_from(s, j)
        }
    } else {
        seq![s[i]] + strip_from(s, i + 1)
    }
}

/// Checks and cleans the text of each module before it is lexed.
pub struct Preprocessor {
    pub module_manager: ModuleManager,
}

fn char_is_allowed(c: char) -> (r: bool)
    ensures
        r == is_allowed(c),
{
    ('a' <= c && c <= 'z') || ('A' <= c && c <= 'Z') || ('0' <= c && c <= '9') || c == ' ' || c
        == '\n' || c == '\t' || c == ';' || c == '(' || c == ')' || c == '[' || c == ']' || c
        == '{' || c == '}' || c == ',' || c == '+' || c == '-' || c == '*' || c == '/' || c
        == '%' || c == '<' || c == '>' || c == '!' || c == '?' || c == '&' || c == '|' || c
        == '^' || c == '~' || c == '=' || c == ':' || c == '.'
}

/// The index and position of the first character of `cs` that is not allowed.
fn find_invalid(cs: &Vec<char>) -> (r: Option<(usize, Span)>)
    requires
        cs@.len() < usize::MAX / 8,
    ensures
        first_invalid(cs@, 0) == cs@.len() ==> r is None,
        first_invalid(cs@, 0) < cs@.len() ==> (r matches Some((i, sp)) && i == first_invalid(cs@, 0)
            && sp@ == pos_at(cs@, i as int)),
{
    let mut span = Span::new();
    let mut i: usize = 0;
    while i < cs.len()
        invariant
            cs@.len() < usize::MAX / 8,
            i <= cs@.len(),
            span@ == pos_at(cs@, i as int),
            first_invalid(cs@, 0) == first_invalid(cs@, i as int),
        decreases cs@.len() - i,
    {
        if !char_is_allowed(cs[i]) {
            return Some((i, span));
        }
        proof {
            lemma_pos_at_bounds(cs@, i as int);
        }
        span.incre_from_char(cs[i]);
        i = i + 1;
    }
    None
}

/// The text of `cs` with comments removed and tabs expanded.
fn strip(cs: &Vec<char>) -> (r: Vec<char>)
    ensures
        r@ == strip_from(cs@, 0),
{
    let n = cs.len();
    let mut out: Vec<char> = Vec::new();
    let mut i: usize = 0;
    while i < n
        invariant
            n == cs@.len(),
            i <= n,
            strip_from(cs@, 0) == out@ + strip_from(cs@, i as int),
        decreases n - i,
    {
        let c = cs[i];
        if c == '\t' {
            let ghost before = out@;
            out.push(' ');
            out.push(' ');
            out.push(' ');
            out.push(' ');
            proof {
                assert(out@ =~= before + tab_spaces());
                assert(before + (tab_spaces() + strip_from(cs@, i + 1)) =~= out@ + strip_from(cs@, i + 1));
            }
            i = i + 1;
        } else if c == '/' && i + 1 < n && cs[i + 1] == '/' {
            let mut j = i + 2;
            while j < n && cs[j] != '\n'
                invariant
                    n == cs@.len(),
                    i + 2 <= j <= n,
                    comment_end(cs@, i + 2) == comment_end(cs@, j as int),
                decreases n - j,
            {
                j = j + 1;
            }
            i = j;
        } else {
            let ghost before = out@;
            out.push(c);
            proof {
                assert(before + (seq![c] + strip_from(cs@, i + 1)) =~= out@ + strip_from(cs@, i + 1));
            }
            i = i + 1;
        }
    }
    proof {
        assert(out@ + Seq::<char>::empty() =~= out@);
    }
    out
}

impl Preprocessor {
    pub fn new(module_manager: ModuleManager) -> (r: Preprocessor)
        ensures
            r.module_manager.modules() == module_manager.modules(),
    {
        Preprocessor { module_manager }
    }

    /// Finds the first character, in module order, that is not allowed.
    pub fn detect_nonvalid_chars(&self) -> (r: Result<(), InvalidChar>)
        requires
            forall|k: int|
                0 <= k < self.module_manager.modules().len() ==> (#[trigger] self.module_manager.modules()[k]).src@.len()
                    < usize::MAX / 8,
        ensures
            r is Ok <==> forall|k: int|
                0 <= k < self.module_manager.modules().len() ==> {
                    let s = (#[trigger] self.module_manager.modules()[k]).src@;
                    first_invalid(s, 0) == s.len()
                },
            r matches Err(e) ==> {
                let s = self.module_manager.modules()[e.module as int].src@;
                let i = first_invalid(s, 0);
                &&& e.module < self.module_manager.modules().len()
                &&& i < s.len()
                &&& e.ch == s[i]
                &&& e.span@ == pos_at(s, i)
                &&& forall|k: int|
                    0 <= k < e.module ==> {
                        let t = (#[trigger] self.module_manager.modules()[k]).src@;
                        first_invalid(t, 0) == t.len()
                    }
            },
    {
        let modules = self.module_manager.get_ref();
        let mut k: usize = 0;
        while k < modules.len()
            invariant
                modules@ == self.module_manager.modules(),
                k <= modules@.len(),
                forall|m: int| 0 <= m < modules@.len() ==> (#[trigger] modules@[m]).src@.len() < usize::MAX / 8,
                forall|m: int|
                    0 <= m < k ==> {
                        let t = (#[trigger] modules@[m]).src@;
                        first_invalid(t, 0) == t.len()
                    },
            decreases modules@.len() - k,
        {
            let cs = chars_of(modules[k].src.as_str());
            proof {
                lemma_first_invalid_bound(cs@, 0);
            }
            match find_invalid(&cs) {
                Some((i, span)) => {
                    return Err(InvalidChar { module: k, span, ch: cs[i] });
                },
                None => {},
            }
            k = k + 1;
        }
        Ok(())
    }

    /// Removes `//` comments (up to, not including, their newline) and expands
    /// each tab to four spaces, in every module.
    pub fn strip_comments(&mut self)
        ensures
            final(self).module_manager.modules().len() == old(self).module_manager.modules().len(),
            forall|k: int|
                0 <= k < old(self).module_manager.modules().len() ==> {
                    &&& (#[trigger] final(self).module_manager.modules()[k]).src@ == strip_from(
                        old(self).module_manager.modules()[k].src@,
                        0,
                    )
                    &&& final(self).module_manager.modules()[k].path@ == old(
                        self,
                    ).module_manager.modules()[k].path@
                },
    {
        let mut modules = self.module_manager.take_modules();
        let ghost orig = modules@;
        let mut k: usize = 0;
        while k < modules.len()
            invariant
                modules@.len() == orig.len(),
                k <= modules@.len(),
                forall|m: int|
                    0 <= m < k ==> {
                        &&& (#[trigger] modules@[m]).src@ == strip_from(orig[m].src@, 0)
                        &&& modules@[m].path@ == orig[m].path@
                    },
                forall|m: int| k <= m < modules@.len() ==> #[trigger] modules@[m] == orig[m],
            decreases modules@.len() - k,
        {
            let cs = chars_of(modules[k].src.as_str());
            let src = string_from_chars(&strip(&cs));
            let path = modules[k].path.clone();
            modules.set(k, Module { src, path });
            k = k + 1;
        }
        self.module_manager = ModuleManager::with_modules(modules);
    }
}

proof fn lemma_first_invalid_bound(s: Seq<char>, i: int)
    requires
        0 <= i <= s.len(),
    ensures
        i <= first_invalid(s, i) <= s.len(),
    decreases s.len() - i,
{
    if i < s.len() && is_allowed(s[i]) {
        lemma_first_invalid_bound(s, i + 1);
    }
}

} // verus!
