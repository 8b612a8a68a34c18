//! Battery-backed cartridge RAM: where each bank of a game is kept, how often
//! a failed write is tried again, and a store of saved banks held in memory.

use vstd::prelude::*;
use vstd::string::*;

verus! {

/// How many times a bank is written before the failure is final.
pub const SAVE_ATTEMPTS: u32 = 4;

/// The longest directory name, in characters.
pub const DIRECTORY_NAME_CHARS: usize = 8;

/// `text` in lower case, as `str::to_lowercase` gives it.
pub uninterp spec fn lowercased(text: Seq<char>) -> Seq<char>;

/// Wraps `str::to_lowercase`: the text with every character in lower case.
#[verifier::external_body]
fn to_lowercase(text: &str) -> (lower: String)
    ensures
        lower@ == lowercased(text@),
{
    text.to_lowercase()
}

/// `text` without its space characters.
pub open spec fn without_spaces(text: Seq<char>) -> Seq<char>
    decreases text.len(),
{
    if text.len() == 0 {
        Seq::empty()
    } else if text.last() == ' ' {
        without_spaces(text.drop_last())
    } else {
        without_spaces(text.drop_last()).push(text.last())
    }
}

/// The first `count` characters of `text`, or all of it if it has fewer.
pub open spec fn first_chars(text: Seq<char>, count: int) -> Seq<char> {
    if text.len() <= count {
        text
    } else {
        text.take(count)
    }
}

/// The name of the directory that holds the saved banks of the game
/// `game_title`: the title without spaces, in lower case, cut to eight
/// characters.
pub open spec fn directory_name_of(game_title: Seq<char>) -> Seq<char> {
    first_chars(lowercased(without_spaces(game_title)), DIRECTORY_NAME_CHARS as int)
}

/// The character for the decimal digit `digit`.
pub open spec fn digit_char(digit: nat) -> char {
    if digit == 0 {
        '0'
    } else if digit == 1 {
        '1'
    } else if digit == 2 {
        '2'
    } else if digit == 3 {
        '3'
    } else if digit == 4 {
        '4'
    } else if digit == 5 {
        '5'
    } else if digit == 6 {
        '6'
    } else if digit == 7 {
        '7'
    } else if digit == 8 {
        '8'
    } else {
        '9'
    }
}

/// `number` written in decimal digits, without leading zeros.
pub open spec fn decimal_digits(number: nat) -> Seq<char>
    decreases number,
{
    if number < 10 {
        seq![digit_char(number)]
    } else {
        decimal_digits(number / 10).push(digit_char(number % 10))
    }
}

/// Wraps the formatting of a `u8` by `format!`: the number in decimal digits.
#[verifier::external_body]
fn decimal_name(number: u8) -> (name: String)
    ensures
        name@ == decimal_digits(number as nat),
{
    format!("{}", number)
}

/// `text` without its space characters.
pub fn remove_spaces(text: &str) -> (stripped: String)
    ensures
        stripped@ == without_spaces(text@),
{
    let mut stripped = String::new();
    let length = text.unicode_len();
    let mut i: usize = 0;
    proof {
        assert(text@.take(0) =~= Seq::<char>::empty());
    }
    while i < length
        invariant
            length == text@.len(),
            i <= length,
            stripped@ == without_spaces(text@.take(i as int)),
        decreases length - i,
    {
        let c = text.get_char(i);
        proof {
            let longer = text@.take(i + 1);
            assert(longer.drop_last() =~= text@.take(i as int));
            assert(longer.last() == c);
        }
        if c != ' ' {
            stripped.append(text.substring_char(i, i + 1));
            proof {
                assert(text@.subrange(i as int, i + 1) =~= seq![c]);
                assert(stripped@ =~= without_spaces(text@.take(i as int)).push(c));
            }
        }
        i += 1;
    }
    proof {
        assert(text@.take(length as int) =~= text@);
    }
    stripped
}

/// The first `count` characters of `text`, or all of it if it has fewer.
pub fn cut_to(text: String, count: usize) -> (cut: String)
    ensures
        cut@ == first_chars(text@, count as int),
{
    let length = text.as_str().unicode_len();
    if length <= count {
        text
    } else {
        let cut = String::from_str(text.as_str().substring_char(0, count));
        proof {
            assert(text@.subrange(0, count as int) =~= text@.take(count as int));
        }
        cut
    }
}

/// The name of the directory under the save root that holds the saved banks
/// of the game `game_title`.
pub fn save_directory_name(game_title: &str) -> (name: String)
    ensures
        name@ == directory_name_of(game_title@),
{
    let stripped = remove_spaces(game_title);
    let lower = to_lowercase(stripped.as_str());
    cut_to(lower, DIRECTORY_NAME_CHARS)
}

/// The name of the file that holds bank `bank_index` of a game.
pub fn bank_file_name(bank_index: u8) -> (name: String)
    ensures
        name@ == decimal_digits(bank_index as nat),
{
    decimal_name(bank_index)
}

/// What to do after an attempt to write a bank.
#[derive(Clone, Copy, Debug, PartialEq, Eq)]
pub enum RetryStep {
    /// The write succeeded; nothing is left to do.
    Finished,
    /// The write failed and is to be tried again.
    Again,
    /// The write failed for the last time; the failure is final.
    Fatal,
}

/// The count of failed writes of one bank, against the limit at which the
/// failure is final.
pub struct SaveRetry {
    failures: u32,
    limit: u32,
}

/// The step that follows an attempt, given the failures before it.
pub open spec fn step_after(failures: int, limit: int, succeeded: bool) -> RetryStep {
    if succeeded {
        RetryStep::Finished
    } else if failures + 1 < limit {
        RetryStep::Again
    } else {
        RetryStep::Fatal
    }
}

impl SaveRetry {
    /// The number of writes that have failed.
    pub closed spec fn failures(&self) -> int {
        self.failures as int
    }

    /// The number of failed writes at which the failure is final.
    pub closed spec fn limit(&self) -> int {
        self.limit as int
    }

    /// A count for a bank that is about to be written, with the usual limit.
    pub fn new() -> (retry: Self)
        ensures
            retry.failures() == 0,
            retry.limit() == SAVE_ATTEMPTS,
    {
        SaveRetry { failures: 0, limit: SAVE_ATTEMPTS }
    }

    /// A count for a bank that is about to be written at most `limit` times.
    pub fn with_limit(limit: u32) -> (retry: Self)
        ensures
            retry.failures() == 0,
            retry.limit() == limit,
    {
        SaveRetry { failures: 0, limit }
    }

    /// Takes note of the outcome of an attempt and says what follows: nothing
    /// after a success, another attempt after a failure while the limit is not
    /// reached, and the end after the failure that reaches it. Failures are
    /// counted up to the limit.
    pub fn after_attempt(&mut self, succeeded: bool) -> (step: RetryStep)
        ensures
            step == step_after(old(self).failures(), old(self).limit(), succeeded),
            final(self).limit() == old(self).limit(),
            final(self).failures() == if succeeded || old(self).failures() >= old(self).limit() {
                old(self).failures()
            } else {
                old(self).failures() + 1
            },
    {
        if succeeded {
            RetryStep::Finished
        } else if self.failures < self.limit {
            self.failures += 1;
            if self.failures < self.limit {
                RetryStep::Again
            } else {
                RetryStep::Fatal
            }
        } else {
            RetryStep::Fatal
        }
    }
}

/// Calls `write` until it succeeds, `attempts` times at most, and gives back
/// the number of the call that succeeded or the error of the last call.
pub fn save_with_retries<E, F: Fn() -> Result<(), E>>(write: F, attempts: u32) -> (result: Result<
    u32,
    E,
>)
    requires
        1 <= attempts,
        call_requires(write, ()),
    ensures
        match result {
            Ok(n) => 1 <= n <= attempts && call_ensures(write, (), Ok(())),
            Err(e) => call_ensures(write, (), Err(e)),
        },
{
    let mut retry = SaveRetry::with_limit(attempts);
    let mut tried: u32 = 0;
    loop
        invariant
            retry.limit() == attempts,
            retry.failures() == tried,
            tried < attempts,
            call_requires(write, ()),
        decreases attempts - tried,
    {
        let outcome = write();
        tried += 1;
        match outcome {
            Ok(done) => {
                proof {
                    assert(done == ());
                }
                retry.after_attempt(true);
                return Ok(tried);
            },
            Err(e) => {
                match retry.after_attempt(false) {
                    RetryStep::Again => {},
                    _ => {
                        return Err(e);
                    },
                }
            },
        }
    }
}

/// One saved bank: where it is kept and what it holds.
pub struct SaveFile {
    directory: String,
    name: String,
    data: Vec<u8>,
}

/// The saved banks of all games, kept in memory under the names that they
/// have on a storage volume.
pub struct SaveRamStore {
    files: Vec<SaveFile>,
}

/// The position of the first file of `files` in `directory` with the name
/// `name`, or the length of `files` if there is none.
spec fn file_position(files: Seq<SaveFile>, directory: Seq<char>, name: Seq<char>) -> int
    decreases files.len(),
{
    if files.len() == 0 {
        0
    } else if files[0].directory@ == directory && files[0].name@ == name {
        0
    } else {
        1 + file_position(files.skip(1), directory, name)
    }
}

/// What `buffer` holds after `data` has been read into it: as much of `data`
/// as fits, then what it held before.
pub open spec fn read_into(buffer: Seq<u8>, data: Seq<u8>) -> Seq<u8> {
    if data.len() >= buffer.len() {
        data.take(buffer.len() as int)
    } else {
        data + buffer.skip(data.len() as int)
    }
}

proof fn lemma_file_position(files: Seq<SaveFile>, directory: Seq<char>, name: Seq<char>)
    ensures
        0 <= file_position(files, directory, name) <= files.len(),
        file_position(files, directory, name) < files.len() ==> {
            &&& files[file_position(files, directory, name)].directory@ == directory
            &&& files[file_position(files, directory, name)].name@ == name
        },
        forall|q: int|
            0 <= q < file_position(files, directory, name) ==> !(files[q].directory@ == directory
                && files[q].name@ == name),
    decreases files.len(),
{
    if files.len() > 0 && !(files[0].directory@ == directory && files[0].name@ == name) {
        let rest = files.skip(1);
        lemma_file_position(rest, directory, name);
        assert forall|q: int| 0 <= q < file_position(files, directory, name) implies !(
        files[q].directory@ == directory && files[q].name@ == name) by {
            if q > 0 {
                assert(files[q] == rest[q - 1]);
            }
        }
    }
}

proof fn lemma_file_position_is(
    files: Seq<SaveFile>,
    directory: Seq<char>,
    name: Seq<char>,
    position: int,
)
    requires
        0 <= position <= files.len(),
        position < files.len() ==> files[position].directory@ == directory && files[position].name@
            == name,
        forall|q: int|
            0 <= q < position ==> !(files[q].directory@ == directory && files[q].name@ == name),
    ensures
        file_position(files, directory, name) == position,
{
    lemma_file_position(files, directory, name);
    let found = file_position(files, directory, name);
    if found < position {
        assert(!(files[found].directory@ == directory && files[found].name@ == name));
    }
}

impl SaveRamStore {
    /// The bytes kept under `name` in `directory`, if there are any.
    pub closed spec fn stored(&self, directory: Seq<char>, name: Seq<char>) -> Option<Seq<u8>> {
        let position = file_position(self.files@, directory, name);
        if position < self.files@.len() {
            Some(self.files@[position].data@)
        } else {
            None
        }
    }

    /// The bytes saved for bank `bank_index` of the game `game_title`, if
    /// there are any.
    pub open spec fn saved(&self, game_title: Seq<char>, bank_index: u8) -> Option<Seq<u8>> {
        self.stored(directory_name_of(game_title), decimal_digits(bank_index as nat))
    }

    /// What a buffer that holds `buffer` holds after bank `bank_index` of the
    /// game `game_title` has been loaded into it.
    pub open spec fn loaded(&self, game_title: Seq<char>, bank_index: u8, buffer: Seq<u8>) -> Seq<
        u8,
    > {
        match self.saved(game_title, bank_index) {
            Some(data) => read_into(buffer, data),
            None => buffer,
        }
    }

    /// A store without any saved bank.
    pub fn new() -> (store: Self)
        ensures
            forall|directory: Seq<char>, name: Seq<char>| store.stored(directory, name).is_none(),
    {
        SaveRamStore { files: Vec::new() }
    }

    /// Where the file `name` of `directory` stands, if it exists.
    fn find(&self, directory: &String, name: &String) -> (position: usize)
        ensures
            position == file_position(self.files@, directory@, name@),
    {
        let mut k: usize = 0;
        while k < self.files.len()
            invariant
                k <= self.files@.len(),
                forall|q: int|
                    0 <= q < k ==> !(self.files@[q].directory@ == directory@ && self.files@[q].name@
                        == name@),
            decreases self.files@.len() - k,
        {
            if self.files[k].directory == *directory && self.files[k].name == *name {
                proof {
                    lemma_file_position_is(self.files@, directory@, name@, k as int);
                }
                return k;
            }
            k += 1;
        }
        proof {
            lemma_file_position_is(self.files@, directory@, name@, k as int);
        }
        k
    }

    /// Keeps `bank` as bank `bank_index` of the game `game_title`, in place of
    /// what was kept for it before. Nothing else that is kept changes.
    pub fn save(&mut self, game_title: &str, bank_index: u8, bank: &[u8])
        ensures
            final(self).saved(game_title@, bank_index) == Some(bank@),
            forall|directory: Seq<char>, name: Seq<char>|
                !(directory == directory_name_of(game_title@) && name == decimal_digits(
                    bank_index as nat,
                )) ==> final(self).stored(directory, name) == old(self).stored(directory, name),
    {
        let directory = save_directory_name(game_title);
        let name = bank_file_name(bank_index);
        let data = vstd::slice::slice_to_vec(bank);
        let position = self.find(&directory, &name);
        let ghost before = self.files@;
        if position < self.files.len() {
            let file = SaveFile { directory, name, data };
            self.files.set(position, file);
        } else {
            self.files.push(SaveFile { directory, name, data });
        }
        proof {
            let after = self.files@;
            lemma_file_position(before, directory@, name@);
            lemma_file_position_is(after, directory@, name@, position as int);
            assert forall|d: Seq<char>, n: Seq<char>| !(d == directory@ && n == name@) implies self.stored(
                d,
                n,
            ) == old(self).stored(d, n) by {
                lemma_file_position(before, d, n);
                let p = file_position(before, d, n);
                if p < before.len() {
                    assert(after[p] == before[p]);
                }
                assert forall|q: int| 0 <= q < p implies !(after[q].directory@ == d && after[q].name@
                    == n) by {
                    if q != position {
                        assert(after[q] == before[q]);
                    }
                }
                if p == before.len() && position == before.len() {
                    lemma_file_position_is(after, d, n, p + 1);
                } else {
                    lemma_file_position_is(after, d, n, p);
                }
            }
        }
    }

    /// Reads bank `bank_index` of the game `game_title` into `bank`, as far as
    /// `bank` has room. Where nothing was saved for it, `bank` stays as it is.
    pub fn load_to_bank(&self, game_title: &str, bank_index: u8, bank: &mut Vec<u8>)
        ensures
            final(bank)@ == self.loaded(game_title@, bank_index, old(bank)@),
    {
        let directory = save_directory_name(game_title);
        let name = bank_file_name(bank_index);
        let position = self.find(&directory, &name);
        if position < self.files.len() {
            let file = &self.files[position];
            let mut k: usize = 0;
            while k < bank.len() && k < file.data.len()
                invariant
                    bank@.len() == old(bank)@.len(),
                    k <= bank@.len(),
                    k <= file.data@.len(),
                    bank@ == file.data@.take(k as int) + old(bank)@.skip(k as int),
                decreases bank@.len() - k,
            {
                bank.set(k, file.data[k]);
                proof {
                    assert(bank@ =~= file.data@.take(k + 1) + old(bank)@.skip(k + 1));
                }
                k += 1;
            }
            proof {
                assert(bank@ =~= read_into(old(bank)@, file.data@));
            }
        }
    }
}

/// A bank that was saved comes back when it is loaded into a buffer of its
/// length, and loading a bank that was never saved leaves the buffer as it
/// was.
pub proof fn lemma_save_then_load(
    store: SaveRamStore,
    game_title: Seq<char>,
    bank_index: u8,
    data: Seq<u8>,
    buffer: Seq<u8>,
)
    requires
        buffer.len() == data.len(),
    ensures
        store.saved(game_title, bank_index) == Some(data) ==> store.loaded(
            game_title,
            bank_index,
            buffer,
        ) == data,
        store.saved(game_title, bank_index).is_none() ==> store.loaded(
            game_title,
            bank_index,
            buffer,
        ) == buffer,
{
    assert(data.take(buffer.len() as int) =~= data);
}

} // verus!
