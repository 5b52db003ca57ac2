use vstd::prelude::*;

use crate::address::{
    IpAddress,
    ipv4_parse,
    parse_ipv4,
    ipv4_form,
    decimal,
    is_digit,
    lemma_decimal_octet,
    law_ipv4_text_reads_back,
};
use crate::ident::{parse_id, uuid_hyphenated, uuid_parse, id_text, hex_digit, nibble};
use crate::text::{
    split_on,
    trim,
    split_chars,
    trim_chars,
    chars_of,
    string_of,
    same_chars,
    views,
    lemma_split_on_len,
    lemma_split_on_none,
    lemma_split_on_append,
    lemma_split_on_concat,
    lemma_trim_unchanged,
    is_white_space,
};
use crate::user::{User, UserErr};

verus! {

/// The lines of the user file's text, as `str::split("\n")` cuts it.
pub open spec fn lines(content: Seq<char>) -> Seq<Seq<char>> {
    split_on(content, '\n')
}

/// The components of a line: the line without its leading and trailing white
/// space, cut at every `:`.
pub open spec fn fields(line: Seq<char>) -> Seq<Seq<char>> {
    split_on(trim(line), ':')
}

/// A line with exactly four components, none of them empty.
pub open spec fn complete(f: Seq<Seq<char>>) -> bool {
    &&& f.len() == 4
    &&& forall|i: int| 0 <= i < 4 ==> #[trigger] f[i].len() > 0
}

/// What a line says of a user, when it is a complete line whose first
/// component is `marker` (`@` for a contact, `$` for the user): the name, the
/// identifier as `uuid` reads it, and the IPv4 address.
pub open spec fn read_record(line: Seq<char>, marker: char) -> Option<(Seq<char>, u128, u32)> {
    let f = fields(line);
    if complete(f) && f[0] == seq![marker] {
        match (uuid_parse(f[2]), ipv4_parse(f[3])) {
            (Some(id), Some(ip)) => Some((f[1], id, ip)),
            _ => None,
        }
    } else {
        None
    }
}

/// The records with `marker` of the lines `ls`, in order.
pub open spec fn records(ls: Seq<Seq<char>>, marker: char) -> Seq<(Seq<char>, u128, u32)>
    decreases ls.len(),
{
    if ls.len() == 0 {
        Seq::empty()
    } else {
        let r = records(ls.drop_last(), marker);
        match read_record(ls.last(), marker) {
            Some(x) => r.push(x),
            None => r,
        }
    }
}

/// The first record with `marker` among the lines `ls`.
pub open spec fn first_record(ls: Seq<Seq<char>>, marker: char) -> Option<(Seq<char>, u128, u32)>
    decreases ls.len(),
{
    if ls.len() == 0 {
        None
    } else {
        match first_record(ls.drop_last(), marker) {
            Some(x) => Some(x),
            None => read_record(ls.last(), marker),
        }
    }
}

/// A complete contact line (`@`) whose name is `name`; its identifier and
/// address are not read.
pub open spec fn names_contact(line: Seq<char>, name: Seq<char>) -> bool {
    let f = fields(line);
    complete(f) && f[0] == seq!['@'] && f[1] == name
}

/// The user file's text has a complete contact line for the name `name`.
pub open spec fn already_written(content: Seq<char>, name: Seq<char>) -> bool {
    exists|i: int| 0 <= i < lines(content).len() && names_contact(#[trigger] lines(content)[i], name)
}

/// `u` is the user that the record `rec` describes.
pub open spec fn user_of_record(u: User, rec: (Seq<char>, u128, u32)) -> bool {
    &&& u.name@ == rec.0
    &&& u.id == rec.1
    &&& u.ip == IpAddress::V4(rec.2)
}

/// The line of the user file for a user: the marker, the name, the hyphenated
/// identifier and the address text, joined by `:`.
pub open spec fn record_text(marker: char, name: Seq<char>, id: u128, ip_text: Seq<char>) -> Seq<
    char,
> {
    seq![marker, ':'] + name + seq![':'] + uuid_hyphenated(id) + seq![':'] + ip_text
}

/// The record with `marker` that a line of the user file holds.
pub fn read_line_record(line: &[char], marker: char) -> (r: Option<(String, u128, u32)>)
    ensures
        match r {
            Some((name, id, ip)) => read_record(line@, marker) == Some((name@, id, ip)),
            None => read_record(line@, marker) is None,
        },
{
    let trimmed = trim_chars(line);
    let parts = split_chars(trimmed.as_slice(), ':');
    proof {
        lemma_split_on_len(trimmed@, ':');
    }
    if parts.len() != 4 {
        return None;
    }
    proof {
        assert(forall|i: int| 0 <= i < 4 ==> views(parts@)[i] == #[trigger] parts@[i]@);
    }
    if parts[0].len() == 0 || parts[1].len() == 0 || parts[2].len() == 0 || parts[3].len() == 0 {
        return None;
    }
    let mark = [marker];
    proof {
        assert(mark@ =~= seq![marker]);
    }
    if !same_chars(parts[0].as_slice(), mark.as_slice()) {
        return None;
    }
    let name = string_of(parts[1].as_slice());
    let id_str = string_of(parts[2].as_slice());
    let id = match parse_id(id_str.as_str()) {
        Some(id) => id,
        None => {
            return None;
        },
    };
    let ip = match parse_ipv4(parts[3].as_slice()) {
        Some(ip) => ip,
        None => {
            return None;
        },
    };
    Some((name, id, ip))
}

/// The contacts that the user file's text records, in order, each with no
/// contact list of its own; always `Some`, an empty list where the text
/// records no contact.
pub fn get_contacts_from(content: &str) -> (r: Option<Vec<User>>)
    ensures
        r is Some,
        r->0@.len() == records(lines(content@), '@').len(),
        forall|i: int|
            0 <= i < r->0@.len() ==> user_of_record(
                #[trigger] r->0@[i],
                records(lines(content@), '@')[i],
            ) && r->0@[i].contacts is None,
{
    let chars = chars_of(content);
    let ls = split_chars(chars.as_slice(), '\n');
    let ghost all = views(ls@);
    let mut users: Vec<User> = Vec::new();
    let n = ls.len();
    for i in 0..n
        invariant
            n == ls@.len(),
            all == views(ls@),
            all == lines(content@),
            users@.len() == records(all.take(i as int), '@').len(),
            forall|j: int|
                0 <= j < users@.len() ==> user_of_record(
                    #[trigger] users@[j],
                    records(all.take(i as int), '@')[j],
                ) && users@[j].contacts is None,
    {
        proof {
            assert(all.take(i + 1).drop_last() =~= all.take(i as int));
            assert(all.take(i + 1).last() == ls@[i as int]@);
        }
        match read_line_record(ls[i].as_slice(), '@') {
            Some((name, id, ip)) => {
                users.push(User { name, id, ip: IpAddress::V4(ip), contacts: None });
            },
            None => {},
        }
    }
    proof {
        assert(all.take(n as int) =~= all);
    }
    Some(users)
}

/// The user that the user file's text records (`$`), from its first such
/// line that reads, with an empty contact list; `UserNotFound` where none does.
pub fn search_first_user_in(content: &str) -> (r: Result<User, UserErr>)
    ensures
        match first_record(lines(content@), '$') {
            Some(rec) => r matches Ok(u) && user_of_record(u, rec) && crate::user::contact_list(u).len()
                == 0 && u.contacts is Some,
            None => r == Err::<User, UserErr>(UserErr::UserNotFound),
        },
{
    let chars = chars_of(content);
    let ls = split_chars(chars.as_slice(), '\n');
    let ghost all = views(ls@);
    let n = ls.len();
    for i in 0..n
        invariant
            n == ls@.len(),
            all == views(ls@),
            all == lines(content@),
            first_record(all.take(i as int), '$') is None,
    {
        proof {
            assert(all.take(i + 1).drop_last() =~= all.take(i as int));
            assert(all.take(i + 1).last() == ls@[i as int]@);
        }
        match read_line_record(ls[i].as_slice(), '$') {
            Some((name, id, ip)) => {
                proof {
                    lemma_first_record_prefix(all, i as int + 1, '$');
                }
                return Ok(User { name, id, ip: IpAddress::V4(ip), contacts: Some(Vec::new()) });
            },
            None => {},
        }
    }
    proof {
        assert(all.take(n as int) =~= all);
    }
    Err(UserErr::UserNotFound)
}

/// Once a prefix of the lines holds a record, the first record of all the
/// lines is that of the prefix.
pub proof fn lemma_first_record_prefix(ls: Seq<Seq<char>>, k: int, marker: char)
    requires
        0 <= k <= ls.len(),
        first_record(ls.take(k), marker) is Some,
    ensures
        first_record(ls, marker) == first_record(ls.take(k), marker),
    decreases ls.len() - k,
{
    if k < ls.len() {
        assert(ls.take(k + 1).drop_last() =~= ls.take(k));
        lemma_first_record_prefix(ls, k + 1, marker);
    } else {
        assert(ls.take(k) =~= ls);
    }
}

/// Whether the user file's text has a complete contact line for the name
/// `name`.
pub fn already_writed_in(content: &str, name: &str) -> (r: bool)
    ensures
        r == already_written(content@, name@),
{
    let chars = chars_of(content);
    let target = chars_of(name);
    let ls = split_chars(chars.as_slice(), '\n');
    let n = ls.len();
    for i in 0..n
        invariant
            n == ls@.len(),
            views(ls@) == lines(content@),
            target@ == name@,
            forall|j: int| 0 <= j < i ==> !names_contact(#[trigger] lines(content@)[j], name@),
    {
        assert(views(ls@)[i as int] == ls@[i as int]@);
        let trimmed = trim_chars(ls[i].as_slice());
        let parts = split_chars(trimmed.as_slice(), ':');
        if parts.len() == 4 {
            proof {
                assert(forall|k: int| 0 <= k < 4 ==> views(parts@)[k] == #[trigger] parts@[k]@);
            }
            if parts[0].len() > 0 && parts[1].len() > 0 && parts[2].len() > 0 && parts[3].len()
                > 0 {
                let mark = ['@'];
                proof {
                    assert(mark@ =~= seq!['@']);
                }
                if same_chars(parts[0].as_slice(), mark.as_slice()) && same_chars(
                    parts[1].as_slice(),
                    target.as_slice(),
                ) {
                    return true;
                }
            }
        }
    }
    false
}

/// The line of the user file for a user with this marker, name, identifier
/// and address text (the line itself, without its line break).
pub fn record_line(marker: char, name: &str, id: u128, ip_text: &str) -> (r: String)
    ensures
        r@ == record_text(marker, name@, id, ip_text@),
{
    let mut out: Vec<char> = Vec::new();
    out.push(marker);
    out.push(':');
    let name_chars = chars_of(name);
    out.append(&mut name_chars.clone());
    out.push(':');
    let id_chars = chars_of(id_text(id).as_str());
    out.append(&mut id_chars.clone());
    out.push(':');
    let ip_chars = chars_of(ip_text);
    out.append(&mut ip_chars.clone());
    proof {
        assert(out@ =~= record_text(marker, name@, id, ip_text@));
    }
    string_of(out.as_slice())
}

/// Whether the user file may be used, from its permission bits, tested as the
/// original tests them: `FailedWrite` where bit `0o400` (owner read) is clear,
/// else `FailedRead` where bit `0o200` (owner write) is clear.
pub fn user_file_access(mode: u32) -> (r: Result<(), UserErr>)
    ensures
        mode & 0o400 == 0 ==> r == Err::<(), UserErr>(UserErr::FailedWrite),
        mode & 0o400 != 0 && mode & 0o200 == 0 ==> r == Err::<(), UserErr>(UserErr::FailedRead),
        mode & 0o400 != 0 && mode & 0o200 != 0 ==> r is Ok,
{
    if mode & 0o400 == 0 {
        Err(UserErr::FailedWrite)
    } else if mode & 0o200 == 0 {
        Err(UserErr::FailedRead)
    } else {
        Ok(())
    }
}

/// The hyphenated form of an identifier holds no `:`.
pub proof fn lemma_hyphenated_has_no_colon(id: u128)
    ensures
        !uuid_hyphenated(id).contains(':'),
        uuid_hyphenated(id).len() == 36,
{
    let h = uuid_hyphenated(id);
    if h.contains(':') {
        let p = choose|p: int| 0 <= p < h.len() && h[p] == ':';
        if !(p == 8 || p == 13 || p == 18 || p == 23) {
            let k = nibble(id, crate::ident::digit_at(p));
            assert(0 <= k < 16);
            assert(h[p] == hex_digit(k));
            assert(hex_digit(k) as u32 != 58);
        }
    }
}

/// The dotted-quad form of an address holds no `:` and ends in a digit.
pub proof fn lemma_ipv4_form_shape(a: u32)
    ensures
        !ipv4_form(a).contains(':'),
        ipv4_form(a).len() > 0,
        is_digit(ipv4_form(a).last()),
{
    let n0 = ((a as int / 16777216) % 256) as nat;
    let n1 = ((a as int / 65536) % 256) as nat;
    let n2 = ((a as int / 256) % 256) as nat;
    let n3 = (a as int % 256) as nat;
    lemma_decimal_octet(n0);
    lemma_decimal_octet(n1);
    lemma_decimal_octet(n2);
    lemma_decimal_octet(n3);
    let f = ipv4_form(a);
    assert(f.last() == decimal(n3).last());
    assert(is_digit(decimal(n3)[decimal(n3).len() - 1]));
    if f.contains(':') {
        let p = choose|p: int| 0 <= p < f.len() && f[p] == ':';
        assert(is_digit(f[p]) || f[p] == '.');
    }
}

/// A line written for a user reads back as that user: the name, the
/// identifier and the IPv4 address come back from the line that
/// `record_text` makes of them, when the name is not empty and holds no `:`,
/// the marker is neither white space nor `:`, and the `uuid` crate reads the
/// hyphenated form of the identifier back as that identifier (which the
/// trusted `parse_id` states of every call).
pub proof fn law_record_reads_back(marker: char, name: Seq<char>, id: u128, a: u32)
    requires
        !is_white_space(marker),
        marker != ':',
        name.len() > 0,
        !name.contains(':'),
        uuid_parse(uuid_hyphenated(id)) == Some(id),
    ensures
        read_record(record_text(marker, name, id, ipv4_form(a)), marker) == Some((name, id, a)),
{
    let h = uuid_hyphenated(id);
    let ip = ipv4_form(a);
    let c = seq![':'];
    let m = seq![marker];
    lemma_hyphenated_has_no_colon(id);
    lemma_ipv4_form_shape(a);
    law_ipv4_text_reads_back(a);
    let line = record_text(marker, name, id, ip);
    assert(line =~= m + c + name + c + h + c + ip);
    assert(!m.contains(':')) by {
        if m.contains(':') {
            assert(m[0] == marker);
        }
    }
    lemma_split_on_none(m, ':');
    lemma_split_on_append(m, name, ':');
    lemma_split_on_append(m + c + name, h, ':');
    lemma_split_on_append(m + c + name + c + h, ip, ':');
    assert(line[0] == marker);
    assert(line.last() == ip.last());
    lemma_trim_unchanged(line);
    let f = fields(line);
    assert(f =~= seq![m, name, h, ip]);
    assert(complete(f));
}

/// An empty line records nothing.
proof fn lemma_empty_line_has_no_record(marker: char)
    ensures
        read_record(Seq::empty(), marker) is None,
{
    let e = Seq::<char>::empty();
    assert(trim(e) == e);
    assert(split_on(e, ':') =~= seq![e]);
}

/// Appending a line with no line break, and a line break, to a text that is
/// empty or ends in a line break: the lines are those before, without the
/// empty last one, then the line, then an empty last one.
proof fn lemma_appended_line(content: Seq<char>, line: Seq<char>)
    requires
        content.len() == 0 || content.last() == '\n',
        !line.contains('\n'),
    ensures
        lines(content).len() >= 1,
        lines(content).last() == Seq::<char>::empty(),
        lines(content).drop_last().push(Seq::<char>::empty()) == lines(content),
        lines(content + line + seq!['\n']) == lines(content).drop_last().push(line).push(
            Seq::<char>::empty(),
        ),
{
    lemma_split_on_len(content, '\n');
    lemma_split_on_none(line, '\n');
    let before = lines(content);
    assert(before.last() == Seq::<char>::empty()) by {
        if content.len() == 0 {
            assert(before =~= seq![Seq::<char>::empty()]);
        } else {
            assert(content.drop_last() + seq!['\n'] =~= content);
        }
    }
    lemma_split_on_concat(content, line, '\n');
    let mid = content + line;
    assert(lines(mid) =~= before.drop_last().push(line));
    let after = mid + seq!['\n'];
    assert(after.drop_last() =~= mid);
    assert(lines(after) == lines(mid).push(Seq::empty()));
    assert(before.drop_last().push(Seq::<char>::empty()) =~= before);
}

/// A line written for a user and appended, with its line break, to a user
/// file whose text is empty or ends in a line break, is read back as one more
/// record at the end: what the file recorded before, then that user. This
/// holds when the name is not empty and holds neither `:` nor a line break,
/// the marker is neither white space nor `:`, and the `uuid` crate reads the
/// hyphenated form of the identifier back as that identifier.
pub proof fn law_appended_record_is_read(
    content: Seq<char>,
    marker: char,
    name: Seq<char>,
    id: u128,
    a: u32,
)
    requires
        content.len() == 0 || content.last() == '\n',
        !is_white_space(marker),
        marker != ':',
        name.len() > 0,
        !name.contains(':'),
        !name.contains('\n'),
        uuid_parse(uuid_hyphenated(id)) == Some(id),
    ensures
        records(lines(content + record_text(marker, name, id, ipv4_form(a)) + seq!['\n']), marker)
            == records(lines(content), marker).push((name, id, a)),
{
    let line = record_text(marker, name, id, ipv4_form(a));
    law_record_reads_back(marker, name, id, a);
    lemma_empty_line_has_no_record(marker);
    lemma_line_is_one_line(marker, name, id, a);
    lemma_appended_line(content, line);
    let before = lines(content);
    let after = lines(content + line + seq!['\n']);
    assert(after.drop_last() =~= before.drop_last().push(line));
    assert(after.drop_last().drop_last() =~= before.drop_last());
    assert(records(after, marker) == records(before.drop_last().push(line), marker));
    assert(records(before, marker) == records(before.drop_last(), marker));
}

/// A user line appended, with its line break, to a user file whose text is
/// empty or ends in a line break and records no user yet, is the user that
/// the file is then read to record; under the same conditions on the name,
/// the marker and the identifier as `law_appended_record_is_read`.
pub proof fn law_appended_user_is_found(content: Seq<char>, name: Seq<char>, id: u128, a: u32)
    requires
        content.len() == 0 || content.last() == '\n',
        first_record(lines(content), '$') is None,
        name.len() > 0,
        !name.contains(':'),
        !name.contains('\n'),
        uuid_parse(uuid_hyphenated(id)) == Some(id),
    ensures
        first_record(lines(content + record_text('$', name, id, ipv4_form(a)) + seq!['\n']), '$')
            == Some((name, id, a)),
{
    let line = record_text('$', name, id, ipv4_form(a));
    law_record_reads_back('$', name, id, a);
    lemma_empty_line_has_no_record('$');
    lemma_line_is_one_line('$', name, id, a);
    lemma_appended_line(content, line);
    let before = lines(content);
    let after = lines(content + line + seq!['\n']);
    assert(after.drop_last() =~= before.drop_last().push(line));
    assert(after.drop_last().drop_last() =~= before.drop_last());
    assert(first_record(before, '$') == first_record(before.drop_last(), '$'));
    assert(first_record(before.drop_last().push(line), '$') == Some((name, id, a)));
    assert(first_record(after, '$') == Some((name, id, a)));
}

/// A written line holds no line break, so it is one line.
proof fn lemma_line_is_one_line(marker: char, name: Seq<char>, id: u128, a: u32)
    requires
        marker != '\n',
        !name.contains('\n'),
    ensures
        !record_text(marker, name, id, ipv4_form(a)).contains('\n'),
        split_on(record_text(marker, name, id, ipv4_form(a)), '\n') == seq![
            record_text(marker, name, id, ipv4_form(a)),
        ],
{
    let line = record_text(marker, name, id, ipv4_form(a));
    lemma_hyphenated_has_no_colon(id);
    assert(!line.contains('\n')) by {
        if line.contains('\n') {
            let p = choose|p: int| 0 <= p < line.len() && line[p] == '\n';
            let h = uuid_hyphenated(id);
            let ip = ipv4_form(a);
            assert(line =~= seq![marker, ':'] + name + seq![':'] + h + seq![':'] + ip);
            if p < 2 {
            } else if p < 2 + name.len() {
                assert(name[p - 2] == '\n');
            } else if p < 3 + name.len() {
            } else if p < 3 + name.len() + 36 {
                let k = p - 3 - name.len();
                assert(h[k] == '\n');
                if !(k == 8 || k == 13 || k == 18 || k == 23) {
                    let v = crate::ident::nibble(id, crate::ident::digit_at(k));
                    assert(0 <= v < 16);
                    assert(hex_digit(v) as u32 != 10);
                }
            } else if p < 4 + name.len() + 36 {
            } else {
                let k = p - 4 - name.len() - 36;
                assert(ip[k] == '\n');
                lemma_ipv4_form_chars(a, k);
            }
        }
    }
    lemma_split_on_none(line, '\n');
}

/// Every character of the dotted-quad form of an address is a digit or `.`.
proof fn lemma_ipv4_form_chars(a: u32, k: int)
    requires
        0 <= k < ipv4_form(a).len(),
    ensures
        is_digit(ipv4_form(a)[k]) || ipv4_form(a)[k] == '.',
{
    let n0 = ((a as int / 16777216) % 256) as nat;
    let n1 = ((a as int / 65536) % 256) as nat;
    let n2 = ((a as int / 256) % 256) as nat;
    let n3 = (a as int % 256) as nat;
    lemma_decimal_octet(n0);
    lemma_decimal_octet(n1);
    lemma_decimal_octet(n2);
    lemma_decimal_octet(n3);
}

/// Once a contact line is appended for a name, the file has a contact line for
/// that name, so a second write of the same contact (which `write_user` skips
/// where `already_writed_in` holds) leaves the file as the first left it.
/// Under the conditions of `law_appended_record_is_read`.
pub proof fn law_appended_contact_is_written(content: Seq<char>, name: Seq<char>, id: u128, a: u32)
    requires
        content.len() == 0 || content.last() == '\n',
        name.len() > 0,
        !name.contains(':'),
        !name.contains('\n'),
        uuid_parse(uuid_hyphenated(id)) == Some(id),
    ensures
        already_written(content + record_text('@', name, id, ipv4_form(a)) + seq!['\n'], name),
{
    let line = record_text('@', name, id, ipv4_form(a));
    law_record_reads_back('@', name, id, a);
    lemma_line_is_one_line('@', name, id, a);
    lemma_appended_line(content, line);
    let after = lines(content + line + seq!['\n']);
    let k = lines(content).len() - 1;
    assert(after[k] == line);
    assert(names_contact(after[k], name));
}

/// The records of a list of lines that holds a record come first in any
/// longer list that starts with it.
proof fn lemma_first_record_extend(ls: Seq<Seq<char>>, more: Seq<Seq<char>>, marker: char)
    requires
        first_record(ls, marker) is Some,
    ensures
        first_record(ls + more, marker) == first_record(ls, marker),
    decreases more.len(),
{
    if more.len() == 0 {
        assert(ls + more =~= ls);
    } else {
        lemma_first_record_extend(ls, more.drop_last(), marker);
        assert((ls + more).drop_last() =~= ls + more.drop_last());
    }
}

/// The first user recorded in a file whose text is empty or ends in a line
/// break stays the user found, whatever is appended after it (further user
/// lines included).
pub proof fn law_first_user_stays(content: Seq<char>, more: Seq<char>)
    requires
        content.len() == 0 || content.last() == '\n',
        first_record(lines(content), '$') is Some,
    ensures
        first_record(lines(content + more), '$') == first_record(lines(content), '$'),
{
    lemma_empty_line_has_no_record('$');
    lemma_split_on_len(content, '\n');
    lemma_split_on_len(more, '\n');
    let before = lines(content);
    assert(before.last() == Seq::<char>::empty()) by {
        if content.len() == 0 {
            assert(before =~= seq![Seq::<char>::empty()]);
        } else {
            assert(content.drop_last() + seq!['\n'] =~= content);
        }
    }
    assert(first_record(before, '$') == first_record(before.drop_last(), '$'));
    lemma_split_on_concat(content, more, '\n');
    let q = lines(more);
    let rest = seq![before.last() + q[0]] + q.drop_first();
    assert(lines(content + more) =~= before.drop_last() + rest);
    lemma_first_record_extend(before.drop_last(), rest, '$');
}

} // verus!
