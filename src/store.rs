//! The profile file: one `name:email # description` record per line, read
//! leniently and only ever appended to.

use vstd::prelude::*;
use crate::profile::{Profile, ProfileView, views};
use crate::text::{
    chars_of, find_char, first_index, lacks, lemma_first_index, lemma_first_index_at,
    lemma_trim_idempotent, lemma_trim_space_after, lemma_trim_space_before, trim, trim_range,
};

verus! {

/// The profile that one line of the file holds, if any.
///
/// The description is what follows the first `#`; the part before it is split
/// at its first `:` into name and email. Each field is trimmed. A line without
/// a `:` before its first `#` holds no profile.
pub open spec fn parse_line_spec(line: Seq<char>) -> Option<ProfileView> {
    if line.len() == 0 {
        None
    } else {
        let h = first_index(line, '#');
        let head = line.take(h as int);
        let description = if h < line.len() {
            trim(line.skip(h + 1int))
        } else {
            Seq::empty()
        };
        let c = first_index(head, ':');
        if c < head.len() {
            Some(
                ProfileView {
                    name: trim(head.take(c as int)),
                    email: trim(head.skip(c + 1int)),
                    description,
                },
            )
        } else {
            None
        }
    }
}

/// The profiles of a whole file: its lines split at each `\n`, in order,
/// leaving out those that hold none.
pub open spec fn parse_all(s: Seq<char>) -> Seq<ProfileView>
    decreases s.len(),
{
    let i = first_index(s, '\n');
    let rest = if i < s.len() {
        parse_all(s.skip(i + 1int))
    } else {
        Seq::empty()
    };
    match parse_line_spec(s.take(i as int)) {
        Some(p) => seq![p] + rest,
        None => rest,
    }
}

/// The trimmed text of `s[start..end]`.
fn trimmed_piece(s: &str, v: &Vec<char>, start: usize, end: usize) -> (r: String)
    requires
        v@ == s@,
        start <= end <= v@.len(),
    ensures
        r@ == trim(s@.subrange(start as int, end as int)),
{
    let (a, b) = trim_range(v, start, end);
    String::from_str(s.substring_char(a, b))
}

/// The profile that the line `s[start..end]` holds, if any.
fn parse_range(s: &str, v: &Vec<char>, start: usize, end: usize) -> (r: Option<Profile>)
    requires
        v@ == s@,
        start <= end <= v@.len(),
    ensures
        r matches Some(p) ==> parse_line_spec(s@.subrange(start as int, end as int)) == Some(p@),
        r is None ==> parse_line_spec(s@.subrange(start as int, end as int)) is None,
{
    let ghost line = s@.subrange(start as int, end as int);
    if start == end {
        return None;
    }
    let h = find_char(v, start, end, '#');
    let description = if h < end {
        assert(line.skip(h - start + 1) =~= s@.subrange(h + 1, end as int));
        trimmed_piece(s, v, h + 1, end)
    } else {
        String::new()
    };
    let c = find_char(v, start, h, ':');
    let ghost head = line.take(h - start);
    assert(head =~= v@.subrange(start as int, h as int));
    if c == h {
        return None;
    }
    assert(head.take(c - start) =~= s@.subrange(start as int, c as int));
    assert(head.skip(c - start + 1) =~= s@.subrange(c + 1, h as int));
    let name = trimmed_piece(s, v, start, c);
    let email = trimmed_piece(s, v, c + 1, h);
    Some(Profile { name, email, description })
}

/// The profile that one line of the profile file holds, or `None` for a line
/// that holds none (empty, or without a `:` before its first `#`).
pub fn parse_line(line: &str) -> (r: Option<Profile>)
    ensures
        r matches Some(p) ==> parse_line_spec(line@) == Some(p@),
        r is None ==> parse_line_spec(line@) is None,
{
    let v = chars_of(line);
    assert(line@.subrange(0, v@.len() as int) =~= line@);
    parse_range(line, &v, 0, v.len())
}

/// The profiles that the text of a profile file holds, in file order.
pub fn parse_profiles(contents: &str) -> (r: Vec<Profile>)
    ensures
        views(r@) == parse_all(contents@),
{
    let v = chars_of(contents);
    let n = v.len();
    let mut out: Vec<Profile> = Vec::new();
    let mut start: usize = 0;
    assert(views(out@) + parse_all(contents@.skip(0)) =~= parse_all(contents@)) by {
        assert(contents@.skip(0) =~= contents@);
    }
    loop
        invariant
            v@ == contents@,
            n == v@.len(),
            start <= n,
            views(out@) + parse_all(contents@.skip(start as int)) == parse_all(contents@),
        decreases n - start,
    {
        let ghost rest = contents@.skip(start as int);
        assert(rest =~= v@.subrange(start as int, n as int));
        let i = find_char(&v, start, n, '\n');
        assert(rest.take(i - start) =~= contents@.subrange(start as int, i as int));
        let ghost tail = if i < n {
            parse_all(contents@.skip(i + 1int))
        } else {
            Seq::empty()
        };
        if i < n {
            assert(rest.skip(i - start + 1) =~= contents@.skip(i + 1int));
        }
        let parsed = parse_range(contents, &v, start, i);
        let ghost before = views(out@);
        match parsed {
            Some(p) => {
                out.push(p);
                assert(views(out@) =~= before + seq![p@]);
                assert(parse_all(rest) == seq![p@] + tail);
                assert(views(out@) + tail =~= before + (seq![p@] + tail));
            },
            None => {
                assert(parse_all(rest) == tail);
            },
        }
        if i == n {
            assert(views(out@) =~= views(out@) + Seq::<ProfileView>::empty());
            return out;
        }
        start = i + 1;
    }
}

/// The line that is appended to the file for a profile. The `# ` before the
/// description is written even when the description is empty.
pub open spec fn record_line(p: ProfileView) -> Seq<char> {
    p.name + seq![':'] + p.email + seq![' ', '#', ' '] + p.description + seq!['\n']
}

/// Text that ends without a line break, so that a new record needs one first.
pub open spec fn needs_line_break(contents: Seq<char>) -> bool {
    contents.len() > 0 && contents.last() != '\n'
}

/// What is appended to a file that holds `contents` to add the profile `p`.
pub open spec fn appended_text(contents: Seq<char>, p: ProfileView) -> Seq<char> {
    if needs_line_break(contents) {
        seq!['\n'] + record_line(p)
    } else {
        record_line(p)
    }
}

/// The line that records `profile` in the file, with its line break.
pub fn record_line_of(profile: &Profile) -> (r: String)
    ensures
        r@ == record_line(profile@),
{
    proof {
        reveal_strlit(":");
        reveal_strlit(" # ");
        reveal_strlit("\n");
    }
    let mut r = String::new();
    r.append(profile.name.as_str());
    r.append(":");
    r.append(profile.email.as_str());
    r.append(" # ");
    r.append(profile.description.as_str());
    r.append("\n");
    assert(r@ =~= record_line(profile@));
    r
}

/// The text to append to a file that holds `contents` so that it records
/// `profile` on a line of its own after what it already holds.
pub fn text_to_append(contents: &str, profile: &Profile) -> (r: String)
    ensures
        r@ == appended_text(contents@, profile@),
{
    let line = record_line_of(profile);
    let n = contents.unicode_len();
    if n > 0 && contents.get_char(n - 1) != '\n' {
        proof {
            reveal_strlit("\n");
        }
        let mut r = String::from_str("\n");
        r.append(line.as_str());
        r
    } else {
        line
    }
}

/// A line splits at its first `:` and its first `#`: a name never holds a
/// `:`, so anything after the first `:` (further `:` included) up to the first
/// `#` is the email, and everything after the first `#` (further `#` and `:`
/// included) is the description.
pub proof fn lemma_parse_splits_at_first_delimiters(
    name: Seq<char>,
    rest: Seq<char>,
    note: Seq<char>,
)
    requires
        lacks(name, ':'),
        lacks(name, '#'),
        lacks(rest, '#'),
    ensures
        parse_line_spec(name + seq![':'] + rest + seq!['#'] + note) == Some(
            ProfileView { name: trim(name), email: trim(rest), description: trim(note) },
        ),
{
    let line = name + seq![':'] + rest + seq!['#'] + note;
    let h = name.len() + 1 + rest.len() as int;
    assert forall|j: int| 0 <= j < h implies line[j] != '#' by {
        if j < name.len() {
            assert(line[j] == name[j]);
        } else if j > name.len() {
            assert(line[j] == rest[j - name.len() - 1]);
        }
    }
    assert(line[h] == '#');
    lemma_first_index_at(line, '#', h);
    let head = line.take(h);
    assert(head =~= name + seq![':'] + rest);
    assert(line.skip(h + 1) =~= note);
    assert forall|j: int| 0 <= j < name.len() implies head[j] != ':' by {
        assert(head[j] == name[j]);
    }
    lemma_first_index_at(head, ':', name.len() as int);
    assert(head.take(name.len() as int) =~= name);
    assert(head.skip(name.len() + 1int) =~= rest);
}

/// A record written as `<name>:<email>#<description>`, with fields free of the
/// delimiters and with any whitespace around them, reads back as its three
/// trimmed fields.
pub proof fn lemma_parse_record_fields(name: Seq<char>, email: Seq<char>, note: Seq<char>)
    requires
        lacks(name, ':'),
        lacks(name, '#'),
        lacks(email, ':'),
        lacks(email, '#'),
    ensures
        parse_line_spec(name + seq![':'] + email + seq!['#'] + note) == Some(
            ProfileView { name: trim(name), email: trim(email), description: trim(note) },
        ),
{
    lemma_parse_splits_at_first_delimiters(name, email, note);
}

/// Every field of a profile read from a line is trimmed.
pub proof fn lemma_parsed_fields_trimmed(line: Seq<char>)
    ensures
        parse_line_spec(line) matches Some(p) ==> trim(p.name) == p.name && trim(p.email)
            == p.email && trim(p.description) == p.description,
{
    if line.len() > 0 {
        let h = first_index(line, '#');
        let head = line.take(h as int);
        let c = first_index(head, ':');
        lemma_trim_idempotent(head.take(c as int));
        lemma_trim_idempotent(head.skip(c + 1int));
        if h < line.len() {
            lemma_trim_idempotent(line.skip(h + 1int));
        } else {
            assert(trim(Seq::<char>::empty()) == Seq::<char>::empty());
        }
    }
}

/// The empty line, and a line with no `:` before its first `#`, hold no profile.
pub proof fn lemma_parse_rejects(line: Seq<char>)
    requires
        line.len() == 0 || lacks(line.take(first_index(line, '#') as int), ':'),
    ensures
        parse_line_spec(line) is None,
{
    if line.len() > 0 {
        lemma_first_index(line, '#');
        let head = line.take(first_index(line, '#') as int);
        lemma_first_index_at(head, ':', head.len() as int);
    }
}

/// A file with no text holds no profile.
pub proof fn lemma_parse_all_empty()
    ensures
        parse_all(Seq::empty()) == Seq::<ProfileView>::empty(),
{
    let e = Seq::<char>::empty();
    assert(e.take(0) =~= e);
}

/// Text without a line break is one line.
proof fn lemma_parse_all_one_line(line: Seq<char>)
    requires
        lacks(line, '\n'),
    ensures
        parse_all(line) == match parse_line_spec(line) {
            Some(p) => seq![p],
            None => Seq::<ProfileView>::empty(),
        },
{
    lemma_first_index_at(line, '\n', line.len() as int);
    assert(line.take(line.len() as int) =~= line);
    match parse_line_spec(line) {
        Some(p) => {
            assert(seq![p] + Seq::<ProfileView>::empty() =~= seq![p]);
        },
        None => {},
    }
}

/// A line break at the very end adds no profile.
proof fn lemma_parse_all_trailing_break(x: Seq<char>)
    ensures
        parse_all(x + seq!['\n']) == parse_all(x),
    decreases x.len(),
{
    let y = x + seq!['\n'];
    lemma_first_index(x, '\n');
    let i = first_index(x, '\n');
    assert forall|j: int| 0 <= j < i implies y[j] != '\n' by {
        assert(y[j] == x[j]);
    }
    lemma_first_index_at(y, '\n', i as int);
    assert(y.take(i as int) =~= x.take(i as int));
    lemma_parse_all_empty();
    if i < x.len() {
        assert(y.skip(i + 1int) =~= x.skip(i + 1int) + seq!['\n']);
        lemma_parse_all_trailing_break(x.skip(i + 1int));
    } else {
        assert(y.skip(i + 1int) =~= Seq::<char>::empty());
    }
}

/// Text that ends with a line break reads as its own profiles followed by
/// those of what comes after it.
proof fn lemma_parse_all_concat(x: Seq<char>, y: Seq<char>)
    requires
        x.len() > 0,
        x.last() == '\n',
    ensures
        parse_all(x + y) == parse_all(x) + parse_all(y),
    decreases x.len(),
{
    let z = x + y;
    lemma_first_index(x, '\n');
    let i = first_index(x, '\n');
    if i == x.len() {
        assert(x[x.len() - 1] == x.last());
    }
    assert(i < x.len());
    assert forall|j: int| 0 <= j < i implies z[j] != '\n' by {
        assert(z[j] == x[j]);
    }
    lemma_first_index_at(z, '\n', i as int);
    assert(z.take(i as int) =~= x.take(i as int));
    if i + 1 == x.len() {
        assert(z.skip(i + 1int) =~= y);
        assert(x.skip(i + 1int) =~= Seq::<char>::empty());
        lemma_parse_all_empty();
        assert(parse_all(x) =~= parse_all(x) + Seq::<ProfileView>::empty());
    } else {
        let x2 = x.skip(i + 1int);
        assert(z.skip(i + 1int) =~= x2 + y);
        assert(x2.last() == x.last());
        lemma_parse_all_concat(x2, y);
        match parse_line_spec(x.take(i as int)) {
            Some(p) => {
                assert(seq![p] + (parse_all(x2) + parse_all(y)) =~= (seq![p] + parse_all(x2))
                    + parse_all(y));
            },
            None => {},
        }
    }
}

/// A profile that the file format can hold unchanged: its fields are trimmed,
/// hold no line break, the name holds no `:` and no `#`, and the email no `#`.
pub open spec fn storable(p: ProfileView) -> bool {
    &&& trim(p.name) == p.name
    &&& trim(p.email) == p.email
    &&& trim(p.description) == p.description
    &&& lacks(p.name, ':') && lacks(p.name, '#') && lacks(p.name, '\n')
    &&& lacks(p.email, '#') && lacks(p.email, '\n')
    &&& lacks(p.description, '\n')
}

/// Appending a storable profile to any file and reading the file again gives
/// the profiles that it held before, in order, followed by that profile.
pub proof fn lemma_append_round_trip(contents: Seq<char>, p: ProfileView)
    requires
        storable(p),
    ensures
        parse_all(contents + appended_text(contents, p)) == parse_all(contents).push(p),
{
    let email_sp = p.email + seq![' '];
    let note_sp = seq![' '] + p.description;
    let body = p.name + seq![':'] + email_sp + seq!['#'] + note_sp;
    assert(record_line(p) =~= body + seq!['\n']);
    assert forall|j: int| 0 <= j < email_sp.len() implies email_sp[j] != '#' by {
        if j < p.email.len() {
            assert(email_sp[j] == p.email[j]);
        }
    }
    lemma_parse_splits_at_first_delimiters(p.name, email_sp, note_sp);
    lemma_trim_space_after(p.email, ' ');
    lemma_trim_space_before(' ', p.description);
    assert forall|j: int| 0 <= j < body.len() implies body[j] != '\n' by {
        let a = p.name.len();
        let b = a + 1 + email_sp.len();
        if j < a {
            assert(body[j] == p.name[j]);
        } else if a < j < b {
            assert(body[j] == email_sp[j - a - 1]);
            if j - a - 1 < p.email.len() {
                assert(email_sp[j - a - 1] == p.email[j - a - 1]);
            }
        } else if j > b {
            assert(body[j] == note_sp[j - b - 1]);
            if j - b - 1 > 0 {
                assert(note_sp[j - b - 1] == p.description[j - b - 2]);
            }
        }
    }
    lemma_parse_all_one_line(body);
    lemma_parse_all_trailing_break(body);
    let base = if needs_line_break(contents) {
        contents + seq!['\n']
    } else {
        contents
    };
    assert(contents + appended_text(contents, p) =~= base + record_line(p));
    if needs_line_break(contents) {
        lemma_parse_all_trailing_break(contents);
    }
    if base.len() == 0 {
        assert(base + record_line(p) =~= record_line(p));
        lemma_parse_all_empty();
        assert(parse_all(contents).push(p) =~= seq![p]);
    } else {
        assert(base.last() == '\n');
        lemma_parse_all_concat(base, record_line(p));
        assert(parse_all(base) + seq![p] =~= parse_all(contents).push(p));
    }
}

/// The number of line breaks in `s`.
pub open spec fn line_breaks(s: Seq<char>) -> nat
    decreases s.len(),
{
    if s.len() == 0 {
        0
    } else {
        line_breaks(s.drop_last()) + if s.last() == '\n' {
            1nat
        } else {
            0nat
        }
    }
}

proof fn lemma_line_breaks_concat(a: Seq<char>, b: Seq<char>)
    ensures
        line_breaks(a + b) == line_breaks(a) + line_breaks(b),
    decreases b.len(),
{
    if b.len() == 0 {
        assert(a + b =~= a);
    } else {
        assert((a + b).drop_last() =~= a + b.drop_last());
        lemma_line_breaks_concat(a, b.drop_last());
    }
}

proof fn lemma_line_breaks_none(s: Seq<char>)
    requires
        lacks(s, '\n'),
    ensures
        line_breaks(s) == 0,
    decreases s.len(),
{
    if s.len() > 0 {
        lemma_line_breaks_none(s.drop_last());
    }
}

/// Appending a storable profile adds exactly one line break, and one more
/// only where the file did not end with one.
pub proof fn lemma_append_adds_one_line(contents: Seq<char>, p: ProfileView)
    requires
        storable(p),
    ensures
        line_breaks(contents + appended_text(contents, p)) == line_breaks(contents) + 1 + if needs_line_break(
            contents,
        ) {
            1nat
        } else {
            0nat
        },
{
    let fields = p.name + seq![':'] + p.email + seq![' ', '#', ' '] + p.description;
    assert(record_line(p) =~= fields + seq!['\n']);
    assert forall|j: int| 0 <= j < fields.len() implies fields[j] != '\n' by {
        let a = p.name.len();
        let b = a + 1 + p.email.len();
        if j < a {
            assert(fields[j] == p.name[j]);
        } else if a < j < b {
            assert(fields[j] == p.email[j - a - 1]);
        } else if j >= b + 3 {
            assert(fields[j] == p.description[j - b - 3]);
        }
    }
    lemma_line_breaks_none(fields);
    lemma_line_breaks_concat(fields, seq!['\n']);
    assert(seq!['\n'].drop_last() =~= Seq::<char>::empty());
    assert(seq!['\n'].last() == '\n');
    assert(line_breaks(Seq::<char>::empty()) == 0);
    assert(line_breaks(seq!['\n']) == 1);
    assert(line_breaks(record_line(p)) == 1);
    lemma_line_breaks_concat(contents, appended_text(contents, p));
    if needs_line_break(contents) {
        lemma_line_breaks_concat(seq!['\n'], record_line(p));
    }
}

/// Why the profile file cannot be located.
#[derive(Debug, PartialEq, Eq, Structural)]
pub enum ConfigPathError {
    /// No home directory could be determined for the user.
    HomeDirUnavailable,
    /// The home directory's path is not valid Unicode.
    HomeDirNotUnicode,
}

/// Where the profile file lies under the home directory `home`: `home` joined
/// with `.config/git-user.txt`, with a `/` between them unless `home` is empty
/// or already ends with one.
pub open spec fn config_path_spec(home: Seq<char>) -> Seq<char> {
    let dir = if home.len() > 0 && home.last() != '/' {
        home + seq!['/']
    } else {
        home
    };
    dir + ".config/git-user.txt"@
}

/// The path of the profile file under the home directory `home`.
pub fn config_path_in(home: &str) -> (r: String)
    ensures
        r@ == config_path_spec(home@),
{
    let mut r = String::from_str(home);
    let n = home.unicode_len();
    if n > 0 && home.get_char(n - 1) != '/' {
        proof {
            reveal_strlit("/");
        }
        r.append("/");
    }
    r.append(".config/git-user.txt");
    r
}

/// Relies on `directories::BaseDirs::new`, which finds the user's home
/// directory (`None` where it cannot) and reads no file, with
/// `BaseDirs::home_dir`, and on `Path::to_str`, which gives the path as text
/// where it is valid Unicode. Both depend on the environment, so nothing is
/// promised of the outcome.
#[verifier::external_body]
fn user_home_dir() -> (r: Option<Option<String>>) {
    match directories::BaseDirs::new() {
        Some(dirs) => match dirs.home_dir().to_str() {
            Some(home) => Some(Some(home.to_string())),
            None => Some(None),
        },
        None => None,
    }
}

/// The path of the profile file under the current user's home directory.
pub fn get_config_path() -> (r: Result<String, ConfigPathError>)
    ensures
        r matches Ok(path) ==> exists|home: Seq<char>| path@ == config_path_spec(home),
{
    match user_home_dir() {
        Some(Some(home)) => Ok(config_path_in(home.as_str())),
        Some(None) => Err(ConfigPathError::HomeDirNotUnicode),
        None => Err(ConfigPathError::HomeDirUnavailable),
    }
}

} // verus!
