//! Completion of command names for the line editor, and the sorted list of
//! commands that it completes from.

use vstd::prelude::*;
use vstd::string::*;
use vstd::utf8::*;
use crate::builtins::{builtin_names, has_separator, names};
use crate::text::{
    chars_of, find_from, lemma_next_of, marked, solid_bounds, spaces, spaces_of, string_of,
    trimmed_with,
};

verus! {

/// `s` in lower case, as the standard library's `str::to_lowercase` gives it.
/// The mapping follows the Unicode tables built into the standard library
/// and is not written out here.
pub uninterp spec fn lowercase(s: Seq<char>) -> Seq<char>;

/// `str::to_lowercase` of the standard library: the result is the string
/// named by [`lowercase`], a function of the characters alone.
pub assume_specification[ str::to_lowercase ](s: &str) -> (r: String)
    ensures
        r@ == lowercase(s@),
;

/// One proposal of the completion: what is shown and what is inserted.
#[derive(Debug, Clone)]
pub struct Candidate {
    /// Text to display when listing alternatives.
    pub display: String,
    /// Text to insert in the line.
    pub replacement: String,
}

/// What a [`Candidate`] stands for.
pub struct CandidateView {
    pub display: Seq<char>,
    pub replacement: Seq<char>,
}

impl View for Candidate {
    type V = CandidateView;

    open spec fn view(&self) -> CandidateView {
        CandidateView { display: self.display@, replacement: self.replacement@ }
    }
}

impl DeepView for Candidate {
    type V = CandidateView;

    open spec fn deep_view(&self) -> CandidateView {
        self@
    }
}

/// What the completion of a command name comes to: where the word under
/// the cursor starts, counted in characters, the word itself, and the
/// commands it may stand for.
#[derive(Debug, Clone)]
pub struct Completion {
    pub start: usize,
    pub word: String,
    pub candidates: Vec<Candidate>,
}

/// Whether the character at `i` ends a word for the completion: white
/// space, as marked in `space`, or `|` or `;`.
pub open spec fn is_break(s: Seq<char>, space: Seq<bool>, i: int) -> bool {
    marked(space, i) || s[i] == '|' || s[i] == ';'
}

/// The start of the word that ends at `j`: the position after the last
/// break before `j`, or 0.
pub open spec fn word_begin(s: Seq<char>, space: Seq<bool>, j: int) -> int
    decreases j,
{
    if 0 < j <= s.len() && !is_break(s, space, j - 1) {
        word_begin(s, space, j - 1)
    } else {
        j
    }
}

/// Whether a command is expected after `before`: at the start of the line
/// and behind `|` or `;`, white space apart.
pub open spec fn command_position(before: Seq<char>, space: Seq<bool>) -> bool {
    let t = trimmed_with(before, space);
    t.len() == 0 || t.last() == '|' || t.last() == ';'
}

/// The word that is to be completed as a command name, with its start: the
/// word at the end of `typed`, if a command is expected there and the word
/// is no path.
pub open spec fn command_word(typed: Seq<char>, space: Seq<bool>) -> Option<(int, Seq<char>)> {
    let start = word_begin(typed, space, typed.len() as int);
    let word = typed.skip(start);
    if command_position(typed.take(start), space) && !has_separator(word) {
        Some((start, word))
    } else {
        None
    }
}

/// The proposal for the command `name`: it is shown as it is and inserted
/// with a space behind it.
pub open spec fn proposal(name: Seq<char>) -> CandidateView {
    CandidateView { display: name, replacement: name + seq![' '] }
}

/// The proposals for a word with the lower-case form `word_lower`: one for
/// each of `names`, in order, whose lower-case form starts with it.
pub open spec fn proposals(word_lower: Seq<char>, names: Seq<Seq<char>>) -> Seq<CandidateView>
    decreases names.len(),
{
    if names.len() == 0 {
        Seq::empty()
    } else {
        let rest = proposals(word_lower, names.drop_last());
        if word_lower.is_prefix_of(lowercase(names.last())) {
            rest.push(proposal(names.last()))
        } else {
            rest
        }
    }
}

/// The completion of the command name at the end of `typed`, the line up to
/// the cursor, where `commands` are the programs on the search path: the
/// start of the word and the proposals among the builtins and `commands`.
/// There is none where no command is expected, where the word is a path,
/// and where nothing matches.
pub open spec fn completion(typed: Seq<char>, commands: Seq<Seq<char>>) -> Option<
    (int, Seq<CandidateView>),
> {
    match command_word(typed, spaces(typed)) {
        Some((start, word)) => {
            let found = proposals(lowercase(word), builtin_names() + commands);
            if found.len() > 0 {
                Some((start, found))
            } else {
                None
            }
        },
        None => None,
    }
}

/// Finds the word to complete as a command name at the end of the
/// characters `typed`, whose white space is marked in `space`: its start and
/// the word itself, if a command is expected there and the word is no path.
pub fn find_command_word(typed: &Vec<char>, space: &Vec<bool>) -> (r: Option<(usize, String)>)
    ensures
        r.is_some() == command_word(typed@, space@).is_some(),
        r.is_some() ==> r.unwrap().0 == command_word(typed@, space@).unwrap().0 && r.unwrap().1@
            == command_word(typed@, space@).unwrap().1,
{
    let mut start: usize = typed.len();
    while start > 0 && !((start - 1 < space.len() && space[start - 1]) || typed[start - 1] == '|'
        || typed[start - 1] == ';')
        invariant
            start <= typed.len(),
            word_begin(typed@, space@, start as int) == word_begin(
                typed@,
                space@,
                typed@.len() as int,
            ),
        decreases start,
    {
        start -= 1;
    }
    let (a, b) = solid_bounds(space, start);
    let expected = a == b || typed[b - 1] == '|' || typed[b - 1] == ';';
    let slash = find_from(typed, '/', start);
    let backslash = find_from(typed, '\\', start);
    proof {
        lemma_next_of(typed@, '/', start as int);
        lemma_next_of(typed@, '\\', start as int);
        let word = typed@.skip(start as int);
        if slash < typed.len() {
            assert(word[slash - start] == '/');
        }
        if backslash < typed.len() {
            assert(word[backslash - start] == '\\');
        }
        if word.contains('/') {
            let k = choose|k: int| 0 <= k < word.len() && word[k] == '/';
            assert(typed@[start + k] == '/');
        }
        if word.contains('\\') {
            let k = choose|k: int| 0 <= k < word.len() && word[k] == '\\';
            assert(typed@[start + k] == '\\');
        }
    }
    if expected && slash == typed.len() && backslash == typed.len() {
        let word = string_of(typed, start, typed.len());
        Some((start, word))
    } else {
        None
    }
}

/// Whether `a` is the start of `b`.
fn starts_with(b: &str, a: &str) -> (r: bool)
    ensures
        r == a@.is_prefix_of(b@),
{
    let x = chars_of(a);
    let y = chars_of(b);
    if x.len() > y.len() {
        return false;
    }
    let mut i: usize = 0;
    while i < x.len()
        invariant
            i <= x.len() <= y.len(),
            x@ == a@,
            y@ == b@,
            forall|k: int| 0 <= k < i ==> x@[k] == y@[k],
        decreases x.len() - i,
    {
        if x[i] != y[i] {
            return false;
        }
        i += 1;
    }
    true
}

/// The proposal for the command `name` if the lower-case word `word_lower`
/// starts its lower-case form `name_lower`.
pub fn offer(name: &str, name_lower: &str, word_lower: &str) -> (candidate: Option<Candidate>)
    ensures
        candidate.deep_view() == if word_lower@.is_prefix_of(name_lower@) {
            Some(proposal(name@))
        } else {
            None
        },
{
    if starts_with(name_lower, word_lower) {
        let mut replacement = name.to_owned();
        replacement.push(' ');
        assert(replacement@ =~= name@ + seq![' ']);
        Some(Candidate { display: name.to_owned(), replacement })
    } else {
        None
    }
}

fn collect(word_lower: &str, names: &Vec<String>, found: &mut Vec<Candidate>, Ghost(before): Ghost<Seq<Seq<char>>>)
    requires
        old(found).deep_view() == proposals(word_lower@, before),
    ensures
        final(found).deep_view() == proposals(word_lower@, before + names.deep_view()),
{
    let mut i: usize = 0;
    while i < names.len()
        invariant
            i <= names.len(),
            found.deep_view() == proposals(word_lower@, before + names.deep_view().take(i as int)),
        decreases names.len() - i,
    {
        let ghost so_far = before + names.deep_view().take(i as int);
        let ghost next = before + names.deep_view().take(i + 1);
        assert(next.drop_last() =~= so_far);
        let lower = names[i].as_str().to_lowercase();
        match offer(names[i].as_str(), lower.as_str(), word_lower) {
            Some(c) => {
                found.push(c);
            },
            None => {},
        }
        i += 1;
    }
    assert(names.deep_view().take(i as int) =~= names.deep_view());
}

/// The plain part of the line editor's helper: the commands on the search
/// path and the prompt as it is displayed.
#[derive(Debug, Clone)]
pub struct ShellHelper {
    pub path_commands: Vec<String>,
    pub colored_prompt: String,
}

impl ShellHelper {
    /// A helper that knows the commands `path_commands` and has no prompt
    /// yet.
    pub fn new(path_commands: Vec<String>) -> (helper: ShellHelper)
        ensures
            helper.path_commands == path_commands,
            helper.colored_prompt@ == Seq::<char>::empty(),
    {
        ShellHelper { path_commands, colored_prompt: String::new() }
    }

    /// Completes the command name at the end of `typed`, the line up to the
    /// cursor. `None` leaves the completion to file names.
    pub fn complete(&self, typed: &str) -> (r: Option<Completion>)
        ensures
            r.is_some() == completion(typed@, self.path_commands.deep_view()).is_some(),
            r.is_some() ==> {
                let c = completion(typed@, self.path_commands.deep_view()).unwrap();
                &&& r.unwrap().start == c.0
                &&& r.unwrap().word@ == typed@.skip(c.0)
                &&& r.unwrap().candidates.deep_view() == c.1
            },
    {
        let v = chars_of(typed);
        let space = spaces_of(&v);
        match find_command_word(&v, &space) {
            Some((start, word)) => {
                let word_lower = word.as_str().to_lowercase();
                let mut found: Vec<Candidate> = Vec::new();
                assert(found.deep_view() =~= proposals(word_lower@, Seq::empty()));
                let builtins = names();
                collect(word_lower.as_str(), &builtins, &mut found, Ghost(Seq::empty()));
                collect(word_lower.as_str(), &self.path_commands, &mut found, Ghost(builtin_names()));
                if found.len() == 0 {
                    None
                } else {
                    Some(Completion { start, word, candidates: found })
                }
            },
            None => None,
        }
    }
}

/// Whether the bytes `a` come before the bytes `b` in the order of the
/// dictionary: at the first place where they differ `a` has the smaller
/// byte, or `a` ends there and `b` goes on.
pub open spec fn bytes_before(a: Seq<u8>, b: Seq<u8>) -> bool
    decreases a.len(),
{
    if b.len() == 0 {
        false
    } else if a.len() == 0 {
        true
    } else if a[0] != b[0] {
        a[0] < b[0]
    } else {
        bytes_before(a.skip(1), b.skip(1))
    }
}

/// Whether the string `a` sorts before the string `b`: by the bytes of
/// their UTF-8 form, as the standard library orders strings.
pub open spec fn before(a: Seq<char>, b: Seq<char>) -> bool {
    bytes_before(encode_utf8(a), encode_utf8(b))
}

/// Of two byte strings that differ, exactly one comes before the other.
pub proof fn lemma_bytes_before_total(a: Seq<u8>, b: Seq<u8>)
    ensures
        a == b || bytes_before(a, b) || bytes_before(b, a),
        !(bytes_before(a, b) && bytes_before(b, a)),
    decreases a.len(),
{
    if a.len() > 0 && b.len() > 0 && a[0] == b[0] {
        lemma_bytes_before_total(a.skip(1), b.skip(1));
        if a.skip(1) == b.skip(1) {
            assert(a =~= seq![a[0]] + a.skip(1));
        }
    }
}

/// No byte string comes before itself.
pub proof fn lemma_bytes_before_irreflexive(a: Seq<u8>)
    ensures
        !bytes_before(a, a),
    decreases a.len(),
{
    if a.len() > 0 {
        lemma_bytes_before_irreflexive(a.skip(1));
    }
}

/// What comes before something that comes before a third comes before the
/// third.
pub proof fn lemma_bytes_before_transitive(a: Seq<u8>, b: Seq<u8>, c: Seq<u8>)
    requires
        bytes_before(a, b),
        bytes_before(b, c),
    ensures
        bytes_before(a, c),
    decreases a.len(),
{
    if a.len() > 0 && b.len() > 0 && c.len() > 0 {
        if a[0] == b[0] && b[0] == c[0] {
            lemma_bytes_before_transitive(a.skip(1), b.skip(1), c.skip(1));
        }
    }
}

/// Each string comes before the next: the sequence is sorted and holds
/// nothing twice.
pub open spec fn ascending(names: Seq<Seq<char>>) -> bool {
    forall|i: int, j: int| 0 <= i < j < names.len() ==> before(#[trigger] names[i], #[trigger] names[j])
}

/// Compares two strings: -1 if `a` sorts before `b`, 0 if they are equal, 1
/// if `b` sorts before `a`.
fn order(a: &str, b: &str) -> (r: i8)
    ensures
        r == -1 <==> before(a@, b@),
        r == 0 <==> a@ == b@,
        r == 1 <==> before(b@, a@),
        r == -1 || r == 0 || r == 1,
{
    let x = a.as_bytes();
    let y = b.as_bytes();
    proof {
        encode_utf8_decode_utf8(a@);
        encode_utf8_decode_utf8(b@);
        lemma_bytes_before_total(x@, y@);
    }
    let mut i: usize = 0;
    assert(x@.skip(0) =~= x@);
    assert(y@.skip(0) =~= y@);
    while i < x.len() && i < y.len()
        invariant
            i <= x.len(),
            i <= y.len(),
            x@ == a.spec_bytes(),
            y@ == b.spec_bytes(),
            bytes_before(x@, y@) == bytes_before(x@.skip(i as int), y@.skip(i as int)),
            bytes_before(y@, x@) == bytes_before(y@.skip(i as int), x@.skip(i as int)),
            forall|k: int| 0 <= k < i ==> x@[k] == y@[k],
        decreases x.len() - i,
    {
        proof {
            assert(x@.skip(i as int).skip(1) =~= x@.skip(i + 1));
            assert(y@.skip(i as int).skip(1) =~= y@.skip(i + 1));
        }
        if x[i] < y[i] {
            return -1;
        }
        if x[i] > y[i] {
            return 1;
        }
        i += 1;
    }
    if i < y.len() {
        -1
    } else if i < x.len() {
        1
    } else {
        0
    }
}

/// Where `name` belongs in the ascending `cmds`: the position before which
/// everything sorts before `name`, and whether `name` stands there already.
fn place(cmds: &Vec<String>, name: &str) -> (r: (usize, bool))
    ensures
        r.0 <= cmds.len(),
        forall|k: int| 0 <= k < r.0 ==> before(#[trigger] cmds.deep_view()[k], name@),
        r.1 ==> r.0 < cmds.len() && cmds.deep_view()[r.0 as int] == name@,
        !r.1 && r.0 < cmds.len() ==> before(name@, cmds.deep_view()[r.0 as int]),
{
    let mut p: usize = 0;
    while p < cmds.len()
        invariant
            p <= cmds.len(),
            forall|k: int| 0 <= k < p ==> before(#[trigger] cmds.deep_view()[k], name@),
        decreases cmds.len() - p,
    {
        let o = order(cmds[p].as_str(), name);
        if o == 0 {
            return (p, true);
        }
        if o == 1 {
            return (p, false);
        }
        p += 1;
    }
    (p, false)
}

/// The names of the commands on the search path, ready for the completion:
/// `found` sorted, with each name once.
///
/// The result holds exactly the names that `found` holds, each before the
/// next in the order [`before`].
pub fn collect_path_commands(found: Vec<String>) -> (cmds: Vec<String>)
    ensures
        ascending(cmds.deep_view()),
        forall|name: Seq<char>| cmds.deep_view().contains(name) <==> found.deep_view().contains(name),
{
    let mut cmds: Vec<String> = Vec::new();
    let mut i: usize = 0;
    while i < found.len()
        invariant
            i <= found.len(),
            ascending(cmds.deep_view()),
            forall|name: Seq<char>|
                cmds.deep_view().contains(name) <==> found.deep_view().take(i as int).contains(name),
        decreases found.len() - i,
    {
        let name = &found[i];
        let ghost old_cmds = cmds.deep_view();
        let ghost seen = found.deep_view().take(i as int);
        let ghost seen_next = found.deep_view().take(i + 1);
        let (p, known) = place(&cmds, name.as_str());
        if !known {
            cmds.insert(p, name.clone());
            let ghost new_cmds = cmds.deep_view();
            assert(ascending(new_cmds)) by {
                assert forall|a: int, b: int| 0 <= a < b < new_cmds.len() implies before(
                    #[trigger] new_cmds[a],
                    #[trigger] new_cmds[b],
                ) by {
                    if b < p {
                        assert(new_cmds[a] == old_cmds[a] && new_cmds[b] == old_cmds[b]);
                    } else if b == p {
                        assert(new_cmds[a] == old_cmds[a]);
                    } else if a == p {
                        assert(new_cmds[b] == old_cmds[b - 1]);
                        if b - 1 > p {
                            assert(before(old_cmds[p as int], old_cmds[b - 1]));
                            lemma_bytes_before_transitive(
                                encode_utf8(name@),
                                encode_utf8(old_cmds[p as int]),
                                encode_utf8(old_cmds[b - 1]),
                            );
                        }
                    } else if a < p {
                        assert(new_cmds[a] == old_cmds[a] && new_cmds[b] == old_cmds[b - 1]);
                    } else {
                        assert(new_cmds[a] == old_cmds[a - 1] && new_cmds[b] == old_cmds[b - 1]);
                    }
                }
            }
            assert forall|n: Seq<char>| new_cmds.contains(n) <==> seen_next.contains(n) by {
                if new_cmds.contains(n) {
                    let k = choose|k: int| 0 <= k < new_cmds.len() && new_cmds[k] == n;
                    if k < p {
                        assert(old_cmds[k] == n);
                        assert(old_cmds.contains(n));
                    } else if k > p {
                        assert(old_cmds[k - 1] == n);
                        assert(old_cmds.contains(n));
                    }
                    if n != name@ {
                        assert(seen.contains(n));
                        let m = choose|m: int| 0 <= m < seen.len() && seen[m] == n;
                        assert(seen_next[m] == n);
                    } else {
                        assert(seen_next[seen_next.len() - 1] == n);
                    }
                }
                if seen_next.contains(n) {
                    let k = choose|k: int| 0 <= k < seen_next.len() && seen_next[k] == n;
                    if k < seen.len() {
                        assert(seen[k] == n);
                        assert(seen.contains(n));
                        assert(old_cmds.contains(n));
                        let m = choose|m: int| 0 <= m < old_cmds.len() && old_cmds[m] == n;
                        if m < p {
                            assert(new_cmds[m] == n);
                        } else {
                            assert(new_cmds[m + 1] == n);
                        }
                    } else {
                        assert(new_cmds[p as int] == n);
                    }
                }
            }
        }
        i += 1;
    }
    assert(found.deep_view().take(i as int) =~= found.deep_view());
    cmds
}

} // verus!
