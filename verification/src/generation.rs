//! Generations of secrets on a host.
//!
//! The secrets of a version are written into a directory of their own, a
//! generation, under the secret root. Generations are numbered, and a
//! symbolic link names the one in use. This module decides the number of the
//! next generation, what is written into it, and which directories are left
//! over once it is in use.

use crate::number::{digit, number, parse, parse_wide, value, wide_number};
use crate::path::{file_name, file_name_of, lemma_file_name_of_child};
use crate::secret::Secret;
use crate::text::texts;
use vstd::prelude::*;
use vstd::string::StringExecFns;

verus! {

/// The symbolic link that names the generation in use.
pub const SECRET_LINK: &'static str = "/etc/yeet/secret";

/// The directory that holds the generations.
pub const SECRET_ROOT: &'static str = "/etc/yeet/secret.d";

/// The permissions of a generation's directory.
pub const GENERATION_MODE: u32 = 0o751;

/// The character of a decimal digit.
pub open spec fn digit_char(d: nat) -> char {
    if d == 0 {
        '0'
    } else if d == 1 {
        '1'
    } else if d == 2 {
        '2'
    } else if d == 3 {
        '3'
    } else if d == 4 {
        '4'
    } else if d == 5 {
        '5'
    } else if d == 6 {
        '6'
    } else if d == 7 {
        '7'
    } else if d == 8 {
        '8'
    } else {
        '9'
    }
}

/// `n` in decimal, without leading zeros.
pub open spec fn decimal_of(n: nat) -> Seq<char>
    decreases n,
{
    if n < 10 {
        seq![digit_char(n)]
    } else {
        decimal_of(n / 10).push(digit_char(n % 10))
    }
}

/// A number in decimal is made of digits and reads back as itself.
pub proof fn lemma_decimal_reads_back(n: nat)
    ensures
        decimal_of(n).len() > 0,
        value(decimal_of(n), 10) == Some(n),
        forall|k: int| 0 <= k < decimal_of(n).len() ==> '0' <= #[trigger] decimal_of(n)[k] <= '9',
    decreases n,
{
    if n < 10 {
        let text = decimal_of(n);
        assert(text.drop_last() =~= Seq::<char>::empty());
        assert(text.last() == digit_char(n));
        assert(digit(digit_char(n), 10) == Some(n));
        assert(value(text.drop_last(), 10) == Some(0nat));
    } else {
        lemma_decimal_reads_back(n / 10);
        let text = decimal_of(n);
        assert(text.drop_last() =~= decimal_of(n / 10));
        assert(text.last() == digit_char(n % 10));
        assert(digit(digit_char(n % 10), 10) == Some(n % 10));
        assert((n / 10) * 10 + n % 10 == n);
    }
}

/// The directory of generation `n`.
pub open spec fn generation_path(n: nat) -> Seq<char> {
    SECRET_ROOT@ + seq!['/'] + decimal_of(n)
}

/// The number of the generation that the link names: the number that the
/// target's file name denotes, where it denotes one that fits in 64 bits.
pub open spec fn numbered(link: Option<Seq<char>>) -> Option<u64> {
    match link {
        Some(target) => match file_name_of(target) {
            Some(name) => wide_number(name, 10),
            None => None,
        },
        None => None,
    }
}

/// The number of the generation after the one that the link names: one more
/// than the number that the target's file name denotes, and zero where there
/// is no link or its target's name is no number.
pub open spec fn next_after(link: Option<Seq<char>>) -> nat {
    match numbered(link) {
        Some(current) => current as nat + 1,
        None => 0,
    }
}

/// The link to generation `n` names generation `n`, and after it comes
/// generation `n + 1`: as long as a number is left, the numbers only grow.
pub proof fn lemma_next_generation_is_greater(n: nat)
    requires
        n <= u64::MAX,
    ensures
        numbered(Some(generation_path(n))) == Some(n as u64),
        next_after(Some(generation_path(n))) == n + 1,
        next_after(Some(generation_path(n))) > n,
{
    lemma_generation_path_names(n);
    lemma_decimal_reads_back(n);
    let name = decimal_of(n);
    assert(crate::number::unsigned(name) == name) by {
        assert('0' <= name[0] <= '9');
    }
}

/// The next generation does not go by the name of what the link names
/// already.
pub proof fn lemma_next_generation_has_new_name(link: Option<Seq<char>>)
    ensures
        link matches Some(target) ==> file_name_of(target) != Some(decimal_of(next_after(link))),
{
    let n = next_after(link);
    if link matches Some(target) && file_name_of(target) == Some(decimal_of(n)) {
        lemma_decimal_reads_back(n);
        let name = decimal_of(n);
        assert(crate::number::unsigned(name) == name) by {
            assert('0' <= name[0] <= '9');
        }
    }
}

/// The next generation is never the one that the link names already.
pub proof fn lemma_next_generation_is_new(link: Option<Seq<char>>)
    ensures
        link != Some(generation_path(next_after(link))),
{
    let n = next_after(link);
    if link == Some(generation_path(n)) {
        lemma_generation_path_names(n);
        lemma_decimal_reads_back(n);
        let name = decimal_of(n);
        assert(crate::number::unsigned(name) == name) by {
            assert('0' <= name[0] <= '9');
        }
        if n <= u64::MAX {
            lemma_next_generation_is_greater(n);
        }
    }
}

/// The file name of a generation's directory is its number in decimal.
pub proof fn lemma_generation_path_names(n: nat)
    ensures
        file_name_of(generation_path(n)) == Some(decimal_of(n)),
{
    lemma_decimal_reads_back(n);
    let name = decimal_of(n);
    assert(!name.contains('/')) by {
        if name.contains('/') {
            let k = choose|k: int| 0 <= k < name.len() && name[k] == '/';
            assert('0' <= name[k] <= '9');
        }
    }
    assert('0' <= name[0] <= '9');
    assert(name != seq!['.']) by {
        if name == seq!['.'] {
            assert(name[0] == '.');
        }
    }
    assert(name != seq!['.', '.']) by {
        if name == seq!['.', '.'] {
            assert(name[0] == '.');
        }
    }
    lemma_file_name_of_child(SECRET_ROOT@, name);
}

/// The target of a link, as plain values.
pub open spec fn link_of(link: Option<&str>) -> Option<Seq<char>> {
    match link {
        Some(target) => Some(target@),
        None => None,
    }
}

/// The number of the next generation, from the target of the link, if there
/// is a link. There is none where the link names the greatest number that
/// fits in 64 bits: the numbers never start again.
pub fn next_generation(link: Option<&str>) -> (next: Option<u64>)
    ensures
        match next {
            Some(n) => n == next_after(link_of(link)),
            None => next_after(link_of(link)) > u64::MAX,
        },
{
    match link {
        Some(target) => match file_name(target) {
            Some(name) => match parse_wide(name.as_str(), 10) {
                Some(current) => current.checked_add(1),
                None => Some(0),
            },
            None => Some(0),
        },
        None => Some(0),
    }
}

/// `n` in decimal.
pub fn decimal(n: u64) -> (text: String)
    ensures
        text@ == decimal_of(n as nat),
{
    let mut digits: Vec<u8> = Vec::new();
    let mut rest = n;
    // The digits of `n`, least significant first.
    while rest >= 10
        invariant
            forall|k: int| 0 <= k < digits.len() ==> #[trigger] digits[k] < 10,
            decimal_of(n as nat) == decimal_of(rest as nat) + tail_of(digits@),
        decreases rest,
    {
        let ghost before = digits@;
        digits.push((rest % 10) as u8);
        proof {
            assert(digits@.drop_last() =~= before);
            assert(decimal_of(rest as nat) == decimal_of((rest / 10) as nat).push(
                digit_char((rest % 10) as nat),
            ));
            assert(decimal_of((rest / 10) as nat).push(digit_char((rest % 10) as nat)) + tail_of(
                before,
            ) =~= decimal_of((rest / 10) as nat) + tail_of(digits@));
        }
        rest = rest / 10;
    }
    let mut text = String::from_str(digit_text(rest as u8));
    assert(text@ =~= decimal_of(rest as nat));
    let mut left = digits.len();
    assert(digits@.take(left as int) =~= digits@);
    while left > 0
        invariant
            left <= digits.len(),
            forall|k: int| 0 <= k < digits.len() ==> #[trigger] digits[k] < 10,
            text@ + tail_of(digits@.take(left as int)) == decimal_of(n as nat),
        decreases left,
    {
        left -= 1;
        proof {
            assert(digits@.take(left + 1).drop_last() =~= digits@.take(left as int));
            assert(digits@.take(left + 1).last() == digits[left as int]);
            assert(text@ + tail_of(digits@.take(left + 1)) =~= text@ + seq![
                digit_char(digits[left as int] as nat),
            ] + tail_of(digits@.take(left as int)));
        }
        text.append(digit_text(digits[left]));
    }
    assert(digits@.take(0) =~= Seq::<u8>::empty());
    assert(text@ + Seq::<char>::empty() =~= text@);
    text
}

/// The characters of the digits in `reversed`, which holds them least
/// significant first, most significant first.
pub open spec fn tail_of(reversed: Seq<u8>) -> Seq<char>
    decreases reversed.len(),
{
    if reversed.len() == 0 {
        Seq::empty()
    } else {
        seq![digit_char(reversed.last() as nat)] + tail_of(reversed.drop_last())
    }
}

/// The text of one decimal digit.
fn digit_text(d: u8) -> (text: &'static str)
    requires
        d < 10,
    ensures
        text@ == seq![digit_char(d as nat)],
{
    proof {
        reveal_strlit("0");
        reveal_strlit("1");
        reveal_strlit("2");
        reveal_strlit("3");
        reveal_strlit("4");
        reveal_strlit("5");
        reveal_strlit("6");
        reveal_strlit("7");
        reveal_strlit("8");
        reveal_strlit("9");
    }
    let text = if d == 0 {
        "0"
    } else if d == 1 {
        "1"
    } else if d == 2 {
        "2"
    } else if d == 3 {
        "3"
    } else if d == 4 {
        "4"
    } else if d == 5 {
        "5"
    } else if d == 6 {
        "6"
    } else if d == 7 {
        "7"
    } else if d == 8 {
        "8"
    } else {
        "9"
    };
    assert(text@ =~= seq![digit_char(d as nat)]);
    text
}

/// The path of the directory of generation `n`.
pub fn generation_dir(n: u64) -> (path: String)
    ensures
        path@ == generation_path(n as nat),
{
    proof {
        reveal_strlit("/");
    }
    let mut path = String::from_str(SECRET_ROOT);
    path.append("/");
    path.append(decimal(n).as_str());
    assert("/"@ =~= seq!['/']);
    path
}

/// A file of a generation.
#[derive(Debug, PartialEq, Eq)]
pub struct SecretFile {
    /// The name of the file inside the generation's directory.
    pub name: String,
    /// Its permissions.
    pub mode: u32,
    /// The user it belongs to.
    pub owner: u32,
    /// The group it belongs to.
    pub group: u32,
    /// What it holds: the secret.
    pub content: Vec<u8>,
}

/// What a file of a generation is, as plain values.
pub struct FileView {
    pub name: Seq<char>,
    pub mode: u32,
    pub owner: u32,
    pub group: u32,
    pub content: Seq<u8>,
}

impl View for SecretFile {
    type V = FileView;

    open spec fn view(&self) -> FileView {
        FileView {
            name: self.name@,
            mode: self.mode,
            owner: self.owner,
            group: self.group,
            content: self.content@,
        }
    }
}

/// Why the secrets of a version cannot be written.
#[derive(Debug, PartialEq, Eq)]
pub enum GenerationError {
    /// The name of a secret has no file name in it.
    InvalidName(String),
    /// The mode of a secret is no octal number.
    InvalidMode(String),
    /// The owner of a secret is no user id.
    InvalidOwner(String),
    /// The group of a secret is no group id.
    InvalidGroup(String),
    /// Two secrets go by the same file name.
    DuplicateName(String),
}

/// What is wrong with a secret's definition, as plain values.
pub enum Fault {
    InvalidName(Seq<char>),
    InvalidMode(Seq<char>),
    InvalidOwner(Seq<char>),
    InvalidGroup(Seq<char>),
    DuplicateName(Seq<char>),
}

impl View for GenerationError {
    type V = Fault;

    open spec fn view(&self) -> Fault {
        match self {
            GenerationError::InvalidName(name) => Fault::InvalidName(name@),
            GenerationError::InvalidMode(mode) => Fault::InvalidMode(mode@),
            GenerationError::InvalidOwner(owner) => Fault::InvalidOwner(owner@),
            GenerationError::InvalidGroup(group) => Fault::InvalidGroup(group@),
            GenerationError::DuplicateName(name) => Fault::DuplicateName(name@),
        }
    }
}

/// The file that holds a secret defined by `secret`, or the first thing wrong
/// with the definition: its name is looked at first, then its mode, its owner
/// and its group.
pub open spec fn file_of(secret: Secret, content: Seq<u8>) -> Result<FileView, Fault> {
    match (
        file_name_of(secret.name@),
        number(secret.mode@, 8),
        number(secret.owner@, 10),
        number(secret.group@, 10),
    ) {
        (None, _, _, _) => Err(Fault::InvalidName(secret.name@)),
        (Some(_), None, _, _) => Err(Fault::InvalidMode(secret.mode@)),
        (Some(_), Some(_), None, _) => Err(Fault::InvalidOwner(secret.owner@)),
        (Some(_), Some(_), Some(_), None) => Err(Fault::InvalidGroup(secret.group@)),
        (Some(name), Some(mode), Some(owner), Some(group)) => Ok(
            FileView { name, mode, owner, group, content },
        ),
    }
}

/// Whether one of `files` goes by `name`.
pub open spec fn taken(files: Seq<FileView>, name: Seq<char>) -> bool {
    exists|i: int| 0 <= i < files.len() && (#[trigger] files[i]).name == name
}

/// The files of a generation that holds `secrets`, in their order, or what is
/// wrong with the first secret that cannot be written: its definition, or
/// that its file name is that of a secret before it.
pub open spec fn files_of(secrets: Seq<(Secret, Vec<u8>)>) -> Result<Seq<FileView>, Fault>
    decreases secrets.len(),
{
    if secrets.len() == 0 {
        Ok(Seq::empty())
    } else {
        match files_of(secrets.drop_last()) {
            Err(fault) => Err(fault),
            Ok(files) => match file_of(secrets.last().0, secrets.last().1@) {
                Err(fault) => Err(fault),
                Ok(file) => if taken(files, file.name) {
                    Err(Fault::DuplicateName(file.name))
                } else {
                    Ok(files.push(file))
                },
            },
        }
    }
}

/// In a generation's files no name occurs twice, and each name is a plain
/// file name: not empty, without a slash, and neither `.` nor `..`. So every
/// file lies in the generation's directory itself.
pub proof fn lemma_files_stay_inside(secrets: Seq<(Secret, Vec<u8>)>)
    ensures
        files_of(secrets) matches Ok(files) ==> {
            &&& files.len() == secrets.len()
            &&& forall|i: int, j: int|
                0 <= i < j < files.len() ==> (#[trigger] files[i]).name != (#[trigger] files[j]).name
            &&& forall|i: int|
                0 <= i < files.len() ==> {
                    let name = (#[trigger] files[i]).name;
                    name.len() > 0 && !name.contains('/') && name != seq!['.'] && name != seq![
                        '.',
                        '.',
                    ]
                }
        },
    decreases secrets.len(),
{
    if secrets.len() > 0 {
        lemma_files_stay_inside(secrets.drop_last());
        if files_of(secrets) is Ok {
            let before = files_of(secrets.drop_last())->Ok_0;
            let file = file_of(secrets.last().0, secrets.last().1@)->Ok_0;
            let files = before.push(file);
            crate::path::lemma_file_name_is_plain(secrets.last().0.name@);
            assert forall|i: int, j: int| 0 <= i < j < files.len() implies (#[trigger] files[i]).name
                != (#[trigger] files[j]).name by {
                if j < before.len() {
                    assert(before[i].name != before[j].name);
                } else {
                    assert(files[i] == before[i]);
                }
            }
            assert forall|i: int| 0 <= i < files.len() implies {
                let name = (#[trigger] files[i]).name;
                name.len() > 0 && !name.contains('/') && name != seq!['.'] && name != seq!['.', '.']
            } by {
                if i < before.len() {
                    assert(files[i] == before[i]);
                }
            }
        }
    }
}

/// The file that holds `content` as `secret` defines it.
pub fn plan_file(secret: &Secret, content: Vec<u8>) -> (planned: Result<SecretFile, GenerationError>)
    ensures
        match planned {
            Ok(file) => file_of(*secret, content@) == Ok::<FileView, Fault>(file@),
            Err(error) => file_of(*secret, content@) == Err::<FileView, Fault>(error@),
        },
{
    let name = match file_name(secret.name.as_str()) {
        Some(name) => name,
        None => {
            return Err(GenerationError::InvalidName(secret.name.clone()));
        },
    };
    let mode = match parse(secret.mode.as_str(), 8) {
        Some(mode) => mode,
        None => {
            return Err(GenerationError::InvalidMode(secret.mode.clone()));
        },
    };
    let owner = match parse(secret.owner.as_str(), 10) {
        Some(owner) => owner,
        None => {
            return Err(GenerationError::InvalidOwner(secret.owner.clone()));
        },
    };
    let group = match parse(secret.group.as_str(), 10) {
        Some(group) => group,
        None => {
            return Err(GenerationError::InvalidGroup(secret.group.clone()));
        },
    };
    Ok(SecretFile { name, mode, owner, group, content })
}

/// The views of `files`.
pub open spec fn views(files: Seq<SecretFile>) -> Seq<FileView> {
    files.map_values(|file: SecretFile| file@)
}

/// The files to write into a new generation that holds `secrets`. Nothing has
/// to be written, nor can be, where the answer is an error.
pub fn plan_generation(secrets: Vec<(Secret, Vec<u8>)>) -> (planned: Result<
    Vec<SecretFile>,
    GenerationError,
>)
    ensures
        match planned {
            Ok(files) => files_of(secrets@) == Ok::<Seq<FileView>, Fault>(views(files@)),
            Err(error) => files_of(secrets@) == Err::<Seq<FileView>, Fault>(error@),
        },
{
    let mut files: Vec<SecretFile> = Vec::new();
    let ghost all = secrets@;
    let mut pending = secrets;
    let mut rest: Vec<(Secret, Vec<u8>)> = Vec::new();
    // Turned round, the secrets can be taken off the end in their order.
    while pending.len() > 0
        invariant
            pending@ + rest@.reverse() == all,
        decreases pending.len(),
    {
        let ghost before = pending@;
        let ghost turned = rest@;
        let pair = pending.pop().unwrap();
        rest.push(pair);
        proof {
            assert(rest@.reverse() =~= seq![pair] + turned.reverse());
            assert(before =~= pending@ + seq![pair]);
            assert(pending@ + rest@.reverse() =~= before + turned.reverse());
        }
    }
    assert(rest@.reverse() =~= all);
    assert(all.take(0) =~= Seq::<(Secret, Vec<u8>)>::empty());
    assert(views(files@) =~= Seq::<FileView>::empty());
    while rest.len() > 0
        invariant
            all == secrets@,
            rest.len() <= all.len(),
            rest@.reverse() == all.skip(all.len() - rest.len()),
            files_of(all.take(all.len() - rest.len())) == Ok::<Seq<FileView>, Fault>(views(files@)),
        decreases rest.len(),
    {
        let ghost done = all.len() - rest.len();
        let ghost turned = rest@;
        let (secret, content) = rest.pop().unwrap();
        proof {
            assert(turned.reverse()[0] == turned.last());
            assert(all[done] == (secret, content));
            assert(all.take(done + 1).drop_last() =~= all.take(done));
            assert(all.take(done + 1).last() == all[done]);
            assert(rest@.reverse() =~= all.skip(done + 1)) by {
                assert(rest@ =~= turned.drop_last());
                assert(turned.drop_last().reverse() =~= turned.reverse().skip(1));
            }
        }
        match plan_file(&secret, content) {
            Ok(file) => {
                if names_file(&files, &file.name) {
                    proof {
                        lemma_files_of_fails(all, done + 1);
                    }
                    return Err(GenerationError::DuplicateName(file.name));
                }
                let ghost before = views(files@);
                files.push(file);
                assert(views(files@) =~= before.push(file@));
            },
            Err(error) => {
                proof {
                    lemma_files_of_fails(all, done + 1);
                }
                return Err(error);
            },
        }
    }
    assert(all.take(all.len() as int) =~= all);
    Ok(files)
}

/// What is wrong with the first secrets is wrong with all of them.
proof fn lemma_files_of_fails(secrets: Seq<(Secret, Vec<u8>)>, n: int)
    requires
        0 <= n <= secrets.len(),
        files_of(secrets.take(n)) is Err,
    ensures
        files_of(secrets) == files_of(secrets.take(n)),
    decreases secrets.len() - n,
{
    if n < secrets.len() {
        assert(secrets.take(n + 1).drop_last() =~= secrets.take(n));
        lemma_files_of_fails(secrets, n + 1);
    } else {
        assert(secrets.take(n) =~= secrets);
    }
}

/// Whether one of `files` goes by `name`.
fn names_file(files: &Vec<SecretFile>, name: &String) -> (found: bool)
    ensures
        found == taken(views(files@), name@),
{
    let mut i: usize = 0;
    while i < files.len()
        invariant
            i <= files.len(),
            forall|k: int| 0 <= k < i ==> (#[trigger] files[k]).name@ != name@,
        decreases files.len() - i,
    {
        if files[i].name == *name {
            assert(views(files@)[i as int].name == name@);
            return true;
        }
        i += 1;
    }
    assert forall|k: int| 0 <= k < views(files@).len() implies (#[trigger] views(files@)[k]).name
        != name@ by {
        assert(files[k].name@ != name@);
    }
    false
}

/// The entries of the secret root that are in the way once the generation
/// named `keep` is in use: all the others, in their order.
pub fn garbage(entries: Vec<String>, keep: &str) -> (leftover: Vec<String>)
    ensures
        texts(leftover@) == crate::text::without(texts(entries@), keep@),
{
    let mut leftover = entries;
    let keep = keep.to_owned();
    crate::text::discard(&mut leftover, &keep);
    leftover
}

} // verus!
