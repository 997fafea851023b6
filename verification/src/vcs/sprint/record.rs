//! Task records: the text a task is kept in, one `key=value` line per field,
//! in a fixed order, each line ended by a newline.
use vstd::prelude::*;
use crate::numeral::{decimal, parse_radix_spec, lemma_parse_radix_digits, lemma_radix_digits, is_radix_digit};
use crate::text::{split_char, texts, lemma_split_char_concat, lemma_split_char_none, chars_of, string_of, push_str,
    push_char, concat, copy_str, str_eq, starts_with, slice_chars, split_on};
use crate::numeral::{format_decimal, parse_radix};
use crate::vcs::sprint::sprint::{Task, TaskStatus};

verus! {

/// Text on one line: each newline becomes a space.
pub open spec fn one_line(s: Seq<char>) -> Seq<char> {
    s.map_values(|c: char| if c == '\n' { ' ' } else { c })
}

/// Pieces joined with a separator between each two.
pub open spec fn joined_with(v: Seq<Seq<char>>, sep: char) -> Seq<char>
    decreases v.len(),
{
    if v.len() == 0 {
        Seq::empty()
    } else if v.len() == 1 {
        v[0]
    } else {
        joined_with(v.drop_last(), sep) + seq![sep] + v.last()
    }
}

/// An optional number as text: its decimal numeral, nothing when absent.
pub open spec fn number_text(v: Option<u64>) -> Seq<char> {
    match v {
        Some(x) => decimal(x as nat),
        None => Seq::empty(),
    }
}

/// Optional story points as text.
pub open spec fn points_text(v: Option<u32>) -> Seq<char> {
    match v {
        Some(x) => decimal(x as nat),
        None => Seq::empty(),
    }
}

/// The word a record gives a status.
pub open spec fn status_word(s: TaskStatus) -> Seq<char> {
    match s {
        TaskStatus::Todo => "todo"@,
        TaskStatus::InProgress => "in-progress"@,
        TaskStatus::Done => "done"@,
    }
}

/// The keys of a record's lines, with their `=`, in order.
pub open spec fn record_keys() -> Seq<Seq<char>> {
    seq!["id="@, "description="@, "points="@, "status="@, "created="@, "started="@, "completed="@,
        "sprint="@, "commits="@]
}

/// The lines of the record of a task kept under a sprint branch (empty for
/// none): the description on one line, absent numbers as nothing, the
/// commits joined with commas.
pub open spec fn record_lines(t: Task, sprint: Seq<char>) -> Seq<Seq<char>> {
    seq![
        "id="@ + t.id@,
        "description="@ + one_line(t.description@),
        "points="@ + points_text(t.story_points),
        "status="@ + status_word(t.status),
        "created="@ + decimal(t.created_at as nat),
        "started="@ + number_text(t.started_at),
        "completed="@ + number_text(t.completed_at),
        "sprint="@ + sprint,
        "commits="@ + joined_with(texts(t.commits@), ','),
    ]
}

/// The record of a task: its lines, each ended by a newline.
pub open spec fn record_text(t: Task, sprint: Seq<char>) -> Seq<char> {
    joined_with(record_lines(t, sprint), '\n') + seq!['\n']
}

/// The first lines of a text start with the record's keys, in order.
pub open spec fn well_keyed(lines: Seq<Seq<char>>) -> bool {
    &&& lines.len() >= 9
    &&& forall|k: int| 0 <= k < 9 ==> record_keys()[k].is_prefix_of(#[trigger] lines[k])
}

/// The value on line `k`: what follows its key.
pub open spec fn field_of(lines: Seq<Seq<char>>, k: int) -> Seq<char> {
    lines[k].skip(record_keys()[k].len() as int)
}

/// A status read from its word; an unknown word reads as to do.
pub open spec fn status_of(w: Seq<char>) -> TaskStatus {
    if w == "in-progress"@ {
        TaskStatus::InProgress
    } else if w == "done"@ {
        TaskStatus::Done
    } else {
        TaskStatus::Todo
    }
}

/// A decimal numeral read as a 64-bit number, if it is one.
pub open spec fn parsed_u64(v: Seq<char>) -> Option<u64> {
    match parse_radix_spec(v, 10, u64::MAX as nat) {
        Some(n) => Some(n as u64),
        None => None,
    }
}

/// A decimal numeral read as a 32-bit number, if it is one.
pub open spec fn parsed_u32(v: Seq<char>) -> Option<u32> {
    match parse_radix_spec(v, 10, u32::MAX as nat) {
        Some(n) => Some(n as u32),
        None => None,
    }
}

/// The commits of a record: none when the value is empty, else the pieces
/// between commas.
pub open spec fn commits_of(v: Seq<char>) -> Seq<Seq<char>> {
    if v.len() == 0 {
        Seq::empty()
    } else {
        split_char(v, ',')
    }
}

/// What a record holds.
pub ghost struct RecordView {
    pub id: Seq<char>,
    pub description: Seq<char>,
    pub points: Option<u32>,
    pub status: TaskStatus,
    pub created: u64,
    pub started: Option<u64>,
    pub completed: Option<u64>,
    pub sprint: Option<Seq<char>>,
    pub commits: Seq<Seq<char>>,
}

/// Reading a record: its lines must start with the keys in order; a number
/// that does not read is absent (a creation time reads as zero), and an
/// empty sprint branch is none.
pub open spec fn decoded_record(text: Seq<char>) -> Option<RecordView> {
    let lines = split_char(text, '\n');
    if !well_keyed(lines) {
        None
    } else {
        Some(RecordView {
            id: field_of(lines, 0),
            description: field_of(lines, 1),
            points: parsed_u32(field_of(lines, 2)),
            status: status_of(field_of(lines, 3)),
            created: match parsed_u64(field_of(lines, 4)) {
                Some(n) => n,
                None => 0,
            },
            started: parsed_u64(field_of(lines, 5)),
            completed: parsed_u64(field_of(lines, 6)),
            sprint: if field_of(lines, 7).len() == 0 { None } else { Some(field_of(lines, 7)) },
            commits: commits_of(field_of(lines, 8)),
        })
    }
}

/// What a task read from a record holds, with its sprint branch.
pub open spec fn record_view(t: Task, sprint: Option<String>) -> RecordView {
    RecordView {
        id: t.id@,
        description: t.description@,
        points: t.story_points,
        status: t.status,
        created: t.created_at,
        started: t.started_at,
        completed: t.completed_at,
        sprint: match sprint {
            Some(s) => Some(s@),
            None => None,
        },
        commits: texts(t.commits@),
    }
}

/// Joined pieces split at the separator give the pieces back, when no
/// piece holds the separator.
pub proof fn lemma_joined_split(v: Seq<Seq<char>>, sep: char)
    requires
        v.len() >= 1,
        forall|i: int| 0 <= i < v.len() ==> !(#[trigger] v[i]).contains(sep),
    ensures
        split_char(joined_with(v, sep), sep) == v,
    decreases v.len(),
{
    if v.len() == 1 {
        lemma_split_char_none(v[0], sep);
        assert(seq![v[0]] =~= v);
    } else {
        lemma_joined_split(v.drop_last(), sep);
        lemma_split_char_concat(joined_with(v.drop_last(), sep), v.last(), sep);
        lemma_split_char_none(v.last(), sep);
        assert(v.drop_last() + seq![v.last()] =~= v);
    }
}

/// Joined pieces hold a character other than the separator only if a piece does.
pub proof fn lemma_joined_lacks(v: Seq<Seq<char>>, sep: char, c: char)
    requires
        c != sep,
        forall|i: int| 0 <= i < v.len() ==> !(#[trigger] v[i]).contains(c),
    ensures
        !joined_with(v, sep).contains(c),
    decreases v.len(),
{
    if v.len() > 1 {
        lemma_joined_lacks(v.drop_last(), sep, c);
        let a = joined_with(v.drop_last(), sep);
        let b = v.last();
        let j = a + seq![sep] + b;
        if j.contains(c) {
            let k = choose|k: int| 0 <= k < j.len() && j[k] == c;
            if k < a.len() {
                assert(a[k] == c);
            } else if k > a.len() {
                assert(b[k - a.len() - 1] == c);
            }
        }
    } else if v.len() == 1 {
        assert(!v[0].contains(c));
    }
}

/// A decimal numeral holds neither a newline nor a comma.
proof fn lemma_decimal_plain(n: nat)
    ensures
        !decimal(n).contains('\n'),
        !decimal(n).contains(','),
{
    lemma_radix_digits(n, 10);
    let d = decimal(n);
    if d.contains('\n') {
        let k = choose|k: int| 0 <= k < d.len() && d[k] == '\n';
        assert(is_radix_digit(d[k], 10));
    }
    if d.contains(',') {
        let k = choose|k: int| 0 <= k < d.len() && d[k] == ',';
        assert(is_radix_digit(d[k], 10));
    }
}

/// Text after a key holds no newline when neither does.
proof fn lemma_line_plain(key: Seq<char>, value: Seq<char>)
    requires
        !key.contains('\n'),
        !value.contains('\n'),
    ensures
        !(key + value).contains('\n'),
        key.is_prefix_of(key + value),
        (key + value).skip(key.len() as int) == value,
{
    let l = key + value;
    if l.contains('\n') {
        let k = choose|k: int| 0 <= k < l.len() && l[k] == '\n';
        if k < key.len() {
            assert(key[k] == '\n');
        } else {
            assert(value[k - key.len()] == '\n');
        }
    }
    assert(l.take(key.len() as int) =~= key);
    assert(l.skip(key.len() as int) =~= value);
}

/// A literal holds no newline when none of its characters is one.
proof fn lemma_literal_plain(s: Seq<char>)
    requires
        forall|i: int| 0 <= i < s.len() ==> s[i] != '\n',
    ensures
        !s.contains('\n'),
{
}

/// The values a record's lines hold, read back.
proof fn lemma_record_values(t: Task, sprint: Seq<char>)
    requires
        !t.id@.contains('\n'),
        !sprint.contains('\n'),
        !joined_with(texts(t.commits@), ',').contains('\n'),
    ensures
        forall|k: int| 0 <= k < 9 ==> !(#[trigger] record_lines(t, sprint)[k]).contains('\n'),
        well_keyed(record_lines(t, sprint)),
        field_of(record_lines(t, sprint), 0) == t.id@,
        field_of(record_lines(t, sprint), 1) == one_line(t.description@),
        field_of(record_lines(t, sprint), 2) == points_text(t.story_points),
        field_of(record_lines(t, sprint), 3) == status_word(t.status),
        field_of(record_lines(t, sprint), 4) == decimal(t.created_at as nat),
        field_of(record_lines(t, sprint), 5) == number_text(t.started_at),
        field_of(record_lines(t, sprint), 6) == number_text(t.completed_at),
        field_of(record_lines(t, sprint), 7) == sprint,
        field_of(record_lines(t, sprint), 8) == joined_with(texts(t.commits@), ','),
{
    reveal_strlit("id=");
    reveal_strlit("description=");
    reveal_strlit("points=");
    reveal_strlit("status=");
    reveal_strlit("created=");
    reveal_strlit("started=");
    reveal_strlit("completed=");
    reveal_strlit("sprint=");
    reveal_strlit("commits=");
    reveal_strlit("todo");
    reveal_strlit("in-progress");
    reveal_strlit("done");
    let keys = record_keys();
    assert forall|k: int| 0 <= k < 9 implies !(#[trigger] keys[k]).contains('\n') by {
        lemma_literal_plain(keys[k]);
    }
    let d = one_line(t.description@);
    assert(!d.contains('\n')) by {
        if d.contains('\n') {
            let k = choose|k: int| 0 <= k < d.len() && d[k] == '\n';
            assert(d[k] == (if t.description@[k] == '\n' { ' ' } else { t.description@[k] }));
        }
    }
    lemma_decimal_plain(t.created_at as nat);
    match t.started_at {
        Some(x) => lemma_decimal_plain(x as nat),
        None => {},
    }
    match t.completed_at {
        Some(x) => lemma_decimal_plain(x as nat),
        None => {},
    }
    match t.story_points {
        Some(x) => lemma_decimal_plain(x as nat),
        None => {},
    }
    lemma_literal_plain(status_word(t.status));
    let values = seq![t.id@, d, points_text(t.story_points), status_word(t.status),
        decimal(t.created_at as nat), number_text(t.started_at), number_text(t.completed_at), sprint,
        joined_with(texts(t.commits@), ',')];
    assert forall|k: int| 0 <= k < 9 implies !(#[trigger] values[k]).contains('\n') by {
    }
    assert forall|k: int| 0 <= k < 9 implies record_lines(t, sprint)[k] == #[trigger] keys[k] + values[k] by {
    }
    assert forall|k: int| 0 <= k < 9 implies {
        &&& !(#[trigger] record_lines(t, sprint)[k]).contains('\n')
        &&& keys[k].is_prefix_of(record_lines(t, sprint)[k])
        &&& field_of(record_lines(t, sprint), k) == values[k]
    } by {
        lemma_line_plain(keys[k], values[k]);
    }
}

/// Reading back a task's record gives the task, its description on one
/// line, and its sprint branch (none when empty), when the id and the sprint
/// branch hold no newline and each commit is non-empty text without a comma
/// or a newline.
pub proof fn lemma_record_round_trip(t: Task, sprint: Seq<char>)
    requires
        !t.id@.contains('\n'),
        !sprint.contains('\n'),
        forall|i: int| 0 <= i < t.commits@.len() ==> (#[trigger] t.commits@[i])@.len() > 0
            && !t.commits@[i]@.contains(',') && !t.commits@[i]@.contains('\n'),
    ensures
        decoded_record(record_text(t, sprint)) == Some(RecordView {
            id: t.id@,
            description: one_line(t.description@),
            points: t.story_points,
            status: t.status,
            created: t.created_at,
            started: t.started_at,
            completed: t.completed_at,
            sprint: if sprint.len() == 0 { None } else { Some(sprint) },
            commits: texts(t.commits@),
        }),
{
    let cs = texts(t.commits@);
    assert forall|i: int| 0 <= i < cs.len() implies !(#[trigger] cs[i]).contains('\n') by {
        assert(cs[i] == t.commits@[i]@);
    }
    lemma_joined_lacks(cs, ',', '\n');
    lemma_record_values(t, sprint);
    let lines = record_lines(t, sprint);
    lemma_joined_split(lines, '\n');
    let text = record_text(t, sprint);
    assert(text == joined_with(lines, '\n') + seq!['\n'] + Seq::<char>::empty());
    lemma_split_char_concat(joined_with(lines, '\n'), Seq::<char>::empty(), '\n');
    let parts = split_char(text, '\n');
    assert(split_char(Seq::<char>::empty(), '\n') == seq![Seq::<char>::empty()]);
    assert(parts == lines + seq![Seq::<char>::empty()]);
    assert forall|k: int| 0 <= k < 9 implies #[trigger] parts[k] == lines[k] by {}
    assert(well_keyed(parts)) by {
        assert forall|k: int| 0 <= k < 9 implies record_keys()[k].is_prefix_of(#[trigger] parts[k]) by {
            assert(parts[k] == lines[k]);
        }
    }
    assert forall|k: int| 0 <= k < 9 implies #[trigger] field_of(parts, k) == field_of(lines, k) by {
        assert(parts[k] == lines[k]);
    }
    assert(field_of(parts, 0) == field_of(lines, 0));
    assert(field_of(parts, 1) == field_of(lines, 1));
    assert(field_of(parts, 2) == field_of(lines, 2));
    assert(field_of(parts, 3) == field_of(lines, 3));
    assert(field_of(parts, 4) == field_of(lines, 4));
    assert(field_of(parts, 5) == field_of(lines, 5));
    assert(field_of(parts, 6) == field_of(lines, 6));
    assert(field_of(parts, 7) == field_of(lines, 7));
    assert(field_of(parts, 8) == field_of(lines, 8));
    match t.story_points {
        Some(x) => lemma_parse_radix_digits(x as nat, 10, u32::MAX as nat),
        None => {},
    }
    match t.started_at {
        Some(x) => lemma_parse_radix_digits(x as nat, 10, u64::MAX as nat),
        None => {},
    }
    match t.completed_at {
        Some(x) => lemma_parse_radix_digits(x as nat, 10, u64::MAX as nat),
        None => {},
    }
    lemma_parse_radix_digits(t.created_at as nat, 10, u64::MAX as nat);
    lemma_status_word(t.status);
    lemma_record_commits(t);
}

/// A status's word reads back as that status.
proof fn lemma_status_word(s: TaskStatus)
    ensures
        status_of(status_word(s)) == s,
{
    reveal_strlit("todo");
    reveal_strlit("in-progress");
    reveal_strlit("done");
    assert("todo"@[0] != "done"@[0]);
    assert("todo"@.len() != "in-progress"@.len());
    assert("done"@.len() != "in-progress"@.len());
}

/// The commits of a record read back as the task's commits.
proof fn lemma_record_commits(t: Task)
    requires
        forall|i: int| 0 <= i < t.commits@.len() ==> (#[trigger] t.commits@[i])@.len() > 0
            && !t.commits@[i]@.contains(','),
    ensures
        commits_of(joined_with(texts(t.commits@), ',')) == texts(t.commits@),
{
    let cs = texts(t.commits@);
    if cs.len() == 0 {
        assert(cs =~= Seq::<Seq<char>>::empty());
    } else {
        assert forall|i: int| 0 <= i < cs.len() implies !(#[trigger] cs[i]).contains(',') by {
            assert(cs[i] == t.commits@[i]@);
        }
        lemma_joined_split(cs, ',');
        assert(cs.last() == t.commits@[cs.len() - 1]@);
        lemma_joined_last(cs, ',');
    }
}

/// Joined pieces are at least as long as the last piece.
proof fn lemma_joined_last(v: Seq<Seq<char>>, sep: char)
    requires
        v.len() >= 1,
    ensures
        joined_with(v, sep).len() >= v.last().len(),
{
    if v.len() == 1 {
        assert(v.last() == v[0]);
    }
}

/// Pieces joined with a separator between each two.
pub fn join_with(pieces: &Vec<String>, sep: char) -> (r: String)
    ensures
        r@ == joined_with(texts(pieces@), sep),
{
    let ghost v = texts(pieces@);
    if pieces.len() == 0 {
        return String::new();
    }
    let mut r = copy_str(pieces[0].as_str());
    let mut i: usize = 1;
    assert(v.take(1) =~= seq![v[0]]);
    while i < pieces.len()
        invariant
            1 <= i <= pieces@.len(),
            v == texts(pieces@),
            r@ == joined_with(v.take(i as int), sep),
        decreases pieces@.len() - i,
    {
        push_char(&mut r, sep);
        push_str(&mut r, pieces[i].as_str());
        proof {
            assert(v.take(i + 1).drop_last() =~= v.take(i as int));
            assert(v.take(i + 1).last() == pieces@[i as int]@);
        }
        i += 1;
    }
    assert(v.take(pieces@.len() as int) =~= v);
    r
}

/// Text on one line: each newline becomes a space.
pub fn to_one_line(s: &str) -> (r: String)
    ensures
        r@ == one_line(s@),
{
    let cs = chars_of(s);
    let mut r = String::new();
    let mut i: usize = 0;
    while i < cs.len()
        invariant
            i <= cs@.len(),
            cs@ == s@,
            r@ == one_line(s@).take(i as int),
        decreases cs@.len() - i,
    {
        let c = if cs[i] == '\n' { ' ' } else { cs[i] };
        push_char(&mut r, c);
        i += 1;
        assert(r@ =~= one_line(s@).take(i as int));
    }
    assert(one_line(s@).take(cs@.len() as int) =~= one_line(s@));
    r
}

/// The decimal numeral of an optional number, nothing when absent.
fn optional_number(v: Option<u64>) -> (r: String)
    ensures
        r@ == number_text(v),
{
    match v {
        Some(x) => format_decimal(x),
        None => String::new(),
    }
}

/// The record of a task kept under `sprint` (empty for none).
pub fn task_record(t: &Task, sprint: &str) -> (r: String)
    ensures
        r@ == record_text(*t, sprint@),
{
    let points = match t.story_points {
        Some(p) => format_decimal(p as u64),
        None => String::new(),
    };
    let status = match t.status {
        TaskStatus::Todo => copy_str("todo"),
        TaskStatus::InProgress => copy_str("in-progress"),
        TaskStatus::Done => copy_str("done"),
    };
    let desc = to_one_line(t.description.as_str());
    let created = format_decimal(t.created_at);
    let started = optional_number(t.started_at);
    let completed = optional_number(t.completed_at);
    let commits = join_with(&t.commits, ',');
    let mut lines: Vec<String> = Vec::new();
    lines.push(concat("id=", t.id.as_str()));
    lines.push(concat("description=", desc.as_str()));
    lines.push(concat("points=", points.as_str()));
    lines.push(concat("status=", status.as_str()));
    lines.push(concat("created=", created.as_str()));
    lines.push(concat("started=", started.as_str()));
    lines.push(concat("completed=", completed.as_str()));
    lines.push(concat("sprint=", sprint));
    lines.push(concat("commits=", commits.as_str()));
    assert(texts(lines@) =~= record_lines(*t, sprint@));
    let mut r = join_with(&lines, '\n');
    push_char(&mut r, '\n');
    r
}

/// The value of a line after its key, when the line starts with the key.
fn field_value(line: &Vec<char>, key: &str) -> (r: Option<String>)
    ensures
        r is Some <==> key@.is_prefix_of(line@),
        r matches Some(v) ==> v@ == line@.skip(key@.len() as int),
{
    let k = chars_of(key);
    if starts_with(line.as_slice(), k.as_slice()) {
        let rest = slice_chars(line.as_slice(), k.len(), line.len());
        assert(rest@ =~= line@.skip(key@.len() as int));
        Some(string_of(rest.as_slice()))
    } else {
        None
    }
}

/// The pieces of text between commas, none for empty text.
fn commits_from(v: &str) -> (r: Vec<String>)
    ensures
        texts(r@) == commits_of(v@),
{
    let mut r: Vec<String> = Vec::new();
    if str_eq(v, "") {
        proof {
            reveal_strlit("");
        }
        assert(texts(r@) =~= Seq::<Seq<char>>::empty());
        return r;
    }
    proof {
        reveal_strlit("");
        if v@.len() == 0 {
            assert(v@ =~= ""@);
        }
    }
    let cs = chars_of(v);
    let parts = split_on(cs.as_slice(), ',');
    let mut i: usize = 0;
    while i < parts.len()
        invariant
            i <= parts@.len(),
            cs@ == v@,
            v@.len() > 0,
            parts@.len() == split_char(v@, ',').len(),
            forall|j: int| 0 <= j < parts@.len() ==> #[trigger] parts@[j]@ == split_char(v@, ',')[j],
            texts(r@) == split_char(v@, ',').take(i as int),
        decreases parts@.len() - i,
    {
        assert(parts@[i as int]@ == split_char(v@, ',')[i as int]);
        let piece = string_of(parts[i].as_slice());
        let ghost before = r@;
        r.push(piece);
        assert(texts(r@) =~= texts(before).push(piece@));
        i += 1;
        assert(texts(r@) =~= split_char(v@, ',').take(i as int));
    }
    assert(split_char(v@, ',').take(parts@.len() as int) =~= split_char(v@, ','));
    r
}

/// Reads a task record: the task and its sprint branch, or nothing when
/// the lines do not start with the record's keys in order.
pub fn read_task_record(text: &str) -> (r: Option<(Task, Option<String>)>)
    ensures
        match decoded_record(text@) {
            Some(v) => r matches Some(p) && record_view(p.0, p.1) == v,
            None => r is None,
        },
{
    let cs = chars_of(text);
    let lines = split_on(cs.as_slice(), '\n');
    let ghost ls = split_char(text@, '\n');
    if lines.len() < 9 {
        return None;
    }
    proof {
        reveal_strlit("id=");
        reveal_strlit("description=");
        reveal_strlit("points=");
        reveal_strlit("status=");
        reveal_strlit("created=");
        reveal_strlit("started=");
        reveal_strlit("completed=");
        reveal_strlit("sprint=");
        reveal_strlit("commits=");
        assert(lines@[0]@ == ls[0]);
        assert(lines@[1]@ == ls[1]);
        assert(lines@[2]@ == ls[2]);
        assert(lines@[3]@ == ls[3]);
        assert(lines@[4]@ == ls[4]);
        assert(lines@[5]@ == ls[5]);
        assert(lines@[6]@ == ls[6]);
        assert(lines@[7]@ == ls[7]);
        assert(lines@[8]@ == ls[8]);
    }
    let values = (
        field_value(&lines[0], "id="),
        field_value(&lines[1], "description="),
        field_value(&lines[2], "points="),
        field_value(&lines[3], "status="),
        field_value(&lines[4], "created="),
        field_value(&lines[5], "started="),
        field_value(&lines[6], "completed="),
        field_value(&lines[7], "sprint="),
        field_value(&lines[8], "commits="),
    );
    match values {
        (Some(id), Some(description), Some(points), Some(status), Some(created), Some(started), Some(completed),
            Some(sprint), Some(commits)) => {
            proof {
                let keys = record_keys();
                assert(keys[0] == "id="@);
                assert(keys[1] == "description="@);
                assert(keys[2] == "points="@);
                assert(keys[3] == "status="@);
                assert(keys[4] == "created="@);
                assert(keys[5] == "started="@);
                assert(keys[6] == "completed="@);
                assert(keys[7] == "sprint="@);
                assert(keys[8] == "commits="@);
                assert(well_keyed(ls));
                assert(field_of(ls, 0) == id@);
                assert(field_of(ls, 1) == description@);
                assert(field_of(ls, 2) == points@);
                assert(field_of(ls, 3) == status@);
                assert(field_of(ls, 4) == created@);
                assert(field_of(ls, 5) == started@);
                assert(field_of(ls, 6) == completed@);
                assert(field_of(ls, 7) == sprint@);
                assert(field_of(ls, 8) == commits@);
                reveal_strlit("");
                if sprint@.len() == 0 {
                    assert(sprint@ =~= ""@);
                }
            }
            let pc = chars_of(points.as_str());
            let story_points = match parse_radix(pc.as_slice(), 10, 0xffff_ffff) {
                Some(n) => Some(n as u32),
                None => None,
            };
            let st = if str_eq(status.as_str(), "in-progress") {
                TaskStatus::InProgress
            } else if str_eq(status.as_str(), "done") {
                TaskStatus::Done
            } else {
                TaskStatus::Todo
            };
            let cc = chars_of(created.as_str());
            let created_at = match parse_radix(cc.as_slice(), 10, u64::MAX) {
                Some(n) => n,
                None => 0,
            };
            let sc = chars_of(started.as_str());
            let started_at = parse_radix(sc.as_slice(), 10, u64::MAX);
            let ec = chars_of(completed.as_str());
            let completed_at = parse_radix(ec.as_slice(), 10, u64::MAX);
            let sprint_branch = if str_eq(sprint.as_str(), "") {
                None
            } else {
                Some(sprint)
            };
            let task = Task {
                id,
                description,
                story_points,
                status: st,
                created_at,
                started_at,
                completed_at,
                commits: commits_from(commits.as_str()),
            };
            Some((task, sprint_branch))
        },
        _ => {
            proof {
                assert(!well_keyed(ls)) by {
                    let keys = record_keys();
                    assert(keys[0] == "id="@);
                    assert(keys[1] == "description="@);
                    assert(keys[2] == "points="@);
                    assert(keys[3] == "status="@);
                    assert(keys[4] == "created="@);
                    assert(keys[5] == "started="@);
                    assert(keys[6] == "completed="@);
                    assert(keys[7] == "sprint="@);
                    assert(keys[8] == "commits="@);
                }
            }
            None
        },
    }
}

} // verus!
