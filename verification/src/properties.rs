//! A parser for `.properties`-style configuration text: one `key=value` pair
//! per line, `#` or `!` opening a comment line, whitespace around keys and
//! values ignored, later assignments to a key replacing earlier ones.

use vstd::prelude::*;
use vstd::slice::slice_to_vec;
use vstd::utf8::{decode_utf8, valid_utf8};

use crate::text::{
    bytes_eq, find_byte, is_ws_byte, lemma_encode_injective, lemma_find_byte, spec_find_byte,
    spec_trim, trim_slice, utf8_string,
};

verus! {

broadcast use vstd::utf8::encode_utf8_decode_utf8, vstd::utf8::decode_utf8_encode_utf8, vstd::utf8::encode_utf8_valid_utf8;

/// A line as `BufRead` hands it out: without the newline, and without one
/// trailing carriage return if present.
pub open spec fn spec_strip_cr(line: Seq<u8>) -> Seq<u8> {
    if line.len() > 0 && line.last() == 13 {
        line.drop_last()
    } else {
        line
    }
}

/// What one line of a properties file means.
pub enum LineKind {
    /// The line is not readable as text.
    Unreadable,
    /// A blank or comment line.
    Skip,
    /// A `key=value` pair, both parts trimmed and decoded.
    Entry { key: Seq<char>, value: Seq<char> },
    /// A non-comment line without `=`: no key-value pair can be parsed from
    /// it.  Carries the trimmed line.
    Bad { line: Seq<char> },
}

/// Classifies one raw line.  An unreadable (non-UTF-8) line is reported as
/// such; text conversion happens exactly where a piece of the line is kept,
/// so a piece that fails conversion is classified like an unreadable line,
/// though no piece of a readable line ever does.
pub open spec fn spec_line_kind(line: Seq<u8>) -> LineKind {
    if !valid_utf8(line) {
        LineKind::Unreadable
    } else {
        let t = spec_trim(line);
        if t.len() == 0 || t[0] == 35 || t[0] == 33 {
            LineKind::Skip
        } else {
            let i = spec_find_byte(t, 61);
            if i == t.len() {
                if valid_utf8(t) {
                    LineKind::Bad { line: decode_utf8(t) }
                } else {
                    LineKind::Unreadable
                }
            } else {
                let key = spec_trim(t.take(i));
                let value = spec_trim(t.skip(i + 1));
                if valid_utf8(key) && valid_utf8(value) {
                    LineKind::Entry { key: decode_utf8(key), value: decode_utf8(value) }
                } else {
                    LineKind::Unreadable
                }
            }
        }
    }
}

/// The index of the first entry whose key is `key`, or `entries.len()` when
/// no entry has it.
pub open spec fn spec_find_key(entries: Seq<(Seq<char>, Seq<char>)>, key: Seq<char>) -> int
    decreases entries.len(),
{
    if entries.len() == 0 {
        0
    } else if entries[0].0 == key {
        0
    } else {
        1 + spec_find_key(entries.drop_first(), key)
    }
}

/// Setting `key` to `value`: the first entry with that key is replaced, or
/// a new entry is appended when no entry has it.
pub open spec fn spec_insert_entry(
    entries: Seq<(Seq<char>, Seq<char>)>,
    key: Seq<char>,
    value: Seq<char>,
) -> Seq<(Seq<char>, Seq<char>)> {
    let j = spec_find_key(entries, key);
    if j == entries.len() {
        entries.push((key, value))
    } else {
        entries.update(j, (key, value))
    }
}

/// Reads the rest of `content` into `entries`, the next line carrying
/// `line_number`.  Stops at the first unreadable or pair-less line, naming
/// its line number and kind.
pub open spec fn spec_read_from(
    content: Seq<u8>,
    entries: Seq<(Seq<char>, Seq<char>)>,
    line_number: nat,
) -> Result<Seq<(Seq<char>, Seq<char>)>, (nat, LineKind)>
    decreases content.len() via spec_read_from_decreases
{
    if content.len() == 0 {
        Ok(entries)
    } else {
        let i = spec_find_byte(content, 10);
        let raw = if i == content.len() {
            content
        } else {
            content.take(i)
        };
        let line = spec_strip_cr(raw);
        match spec_line_kind(line) {
            LineKind::Unreadable => Err((line_number, LineKind::Unreadable)),
            LineKind::Bad { line } => Err((line_number, LineKind::Bad { line })),
            LineKind::Skip => if i == content.len() {
                Ok(entries)
            } else {
                spec_read_from(content.skip(i + 1), entries, line_number + 1)
            },
            LineKind::Entry { key, value } => if i == content.len() {
                Ok(spec_insert_entry(entries, key, value))
            } else {
                spec_read_from(
                    content.skip(i + 1),
                    spec_insert_entry(entries, key, value),
                    line_number + 1,
                )
            },
        }
    }
}

#[via_fn]
proof fn spec_read_from_decreases(
    content: Seq<u8>,
    entries: Seq<(Seq<char>, Seq<char>)>,
    line_number: nat,
) {
    if content.len() != 0 {
        lemma_find_byte(content, 10);
    }
}

/// What reading a whole properties file yields: its entries, or the number
/// and kind of the first line that fails.
pub open spec fn spec_read_properties(content: Seq<u8>) -> Result<
    Seq<(Seq<char>, Seq<char>)>,
    (nat, LineKind),
> {
    spec_read_from(content, Seq::empty(), 1)
}

/// The key-value view of stored entries: each pair as its character
/// sequences.
pub open spec fn entries_view(entries: Seq<(String, String)>) -> Seq<(Seq<char>, Seq<char>)> {
    entries.map_values(|e: (String, String)| (e.0@, e.1@))
}

/// Raised by a lookup for a key that no entry has; carries the key.
#[derive(Debug)]
pub struct PropertyNotFoundError<'a>(pub &'a str);

/// The parsed contents of a properties file: key-value pairs, each key held
/// once.
#[derive(Debug, Clone, PartialEq, Eq)]
pub struct Properties {
    entries: Vec<(String, String)>,
}

/// Raised when a properties file cannot be read, naming the 1-based line
/// that failed.
#[derive(Debug)]
pub struct PropertiesParseError {
    pub line_number: usize,
    pub kind: PropertiesParseErrorKind,
}

/// How a line of a properties file fails.
#[derive(Debug)]
pub enum PropertiesParseErrorKind {
    /// The line could not be read as text; carries a description.
    Io(String),
    /// The line is no comment and holds no `=`.
    InvalidKeyValuePair(InvalidKeyValuePairError),
}

/// A non-comment line without `=`; carries the trimmed line.
#[derive(Debug)]
pub struct InvalidKeyValuePairError(pub String);

impl PropertiesParseError {
    /// Wraps a read failure's description with its line number.
    fn new_io(line_number: usize, error: String) -> (r: Self)
        ensures
            r.line_number == line_number,
            r.kind is Io,
    {
        Self { line_number, kind: PropertiesParseErrorKind::Io(error) }
    }

    /// Wraps a pair-less line with its line number.
    fn new_invalid_kvp(line_number: usize, line: &str) -> (r: Self)
        ensures
            r.line_number == line_number,
            (r.kind matches PropertiesParseErrorKind::InvalidKeyValuePair(e) && e.0@ == line@),
    {
        Self {
            line_number,
            kind: PropertiesParseErrorKind::InvalidKeyValuePair(
                InvalidKeyValuePairError(line.to_owned()),
            ),
        }
    }
}

/// `spec_find_key` names `j` exactly when no entry before `j` has the key
/// and `j` is a hit or one past the end.
proof fn lemma_find_key_at(entries: Seq<(Seq<char>, Seq<char>)>, key: Seq<char>, j: int)
    requires
        0 <= j <= entries.len(),
        forall|i: int| 0 <= i < j ==> (#[trigger] entries[i]).0 != key,
        j < entries.len() ==> entries[j].0 == key,
    ensures
        spec_find_key(entries, key) == j,
    decreases j,
{
    if j == 0 {
    } else {
        assert(forall|i: int| 0 <= i < j - 1 ==> entries.drop_first()[i] == entries[i + 1]);
        lemma_find_key_at(entries.drop_first(), key, j - 1);
    }
}

/// Sets `key` to `value` in `entries`, replacing the entry that has the key
/// or appending a new one, as `spec_insert_entry` says.
fn insert_entry(entries: &mut Vec<(String, String)>, key: String, value: String)
    ensures
        entries_view(final(entries)@) == spec_insert_entry(
            entries_view(old(entries)@),
            key@,
            value@,
        ),
{
    let mut j: usize = 0;
    while j < entries.len()
        invariant
            j <= entries@.len(),
            entries@ == old(entries)@,
            forall|i: int| 0 <= i < j ==> (#[trigger] entries_view(entries@)[i]).0 != key@,
        decreases entries@.len() - j,
    {
        let ghost view0 = entries_view(entries@);
        let hit = bytes_eq(entries[j].0.as_str().as_bytes(), key.as_str().as_bytes());
        proof {
            lemma_encode_injective(entries@[j as int].0@, key@);
            assert(view0[j as int].0 == entries@[j as int].0@);
        }
        if hit {
            proof {
                lemma_find_key_at(view0, key@, j as int);
            }
            entries.set(j, (key, value));
            proof {
                assert(entries_view(entries@) =~= view0.update(j as int, (key@, value@)));
            }
            return ;
        }
        j = j + 1;
    }
    let ghost view0 = entries_view(entries@);
    proof {
        lemma_find_key_at(view0, key@, entries@.len() as int);
    }
    entries.push((key, value));
    proof {
        assert(entries_view(entries@) =~= view0.push((key@, value@)));
    }
}

impl Properties {
    /// The entries as character sequences, in storage order.
    pub closed spec fn spec_entries(self) -> Seq<(Seq<char>, Seq<char>)> {
        entries_view(self.entries@)
    }

    /// Gets the value for a property key, or an error naming the key when
    /// no entry has it.
    pub fn get_property<'a>(&self, key: &'a str) -> (r: Result<&str, PropertyNotFoundError<'a>>)
        ensures
            match r {
                Ok(value) => spec_find_key(self.spec_entries(), key@) < self.spec_entries().len()
                    && value@ == self.spec_entries()[spec_find_key(self.spec_entries(), key@)].1,
                Err(e) => spec_find_key(self.spec_entries(), key@) == self.spec_entries().len()
                    && e.0@ == key@,
            },
    {
        let mut j: usize = 0;
        while j < self.entries.len()
            invariant
                j <= self.entries@.len(),
                forall|i: int| 0 <= i < j ==> (#[trigger] self.spec_entries()[i]).0 != key@,
            decreases self.entries@.len() - j,
        {
            let hit = bytes_eq(self.entries[j].0.as_str().as_bytes(), key.as_bytes());
            proof {
                lemma_encode_injective(self.entries@[j as int].0@, key@);
                assert(self.spec_entries()[j as int] == (
                    self.entries@[j as int].0@,
                    self.entries@[j as int].1@,
                ));
            }
            if hit {
                proof {
                    lemma_find_key_at(self.spec_entries(), key@, j as int);
                }
                return Ok(self.entries[j].1.as_str());
            }
            j = j + 1;
        }
        proof {
            lemma_find_key_at(self.spec_entries(), key@, self.entries@.len() as int);
        }
        Err(PropertyNotFoundError(key))
    }
}

impl Default for Properties {
    /// No entries.
    fn default() -> (r: Self)
        ensures
            r.spec_entries() == Seq::<(Seq<char>, Seq<char>)>::empty(),
    {
        let r = Properties { entries: Vec::new() };
        proof {
            assert(r.spec_entries() =~= Seq::<(Seq<char>, Seq<char>)>::empty());
        }
        r
    }
}

/// Parses the text of a properties file into `Properties`, following
/// `spec_read_properties` exactly: the first line that is unreadable or
/// holds no pair fails the whole read, with its line number.
pub fn read_properties(content: &[u8]) -> (r: Result<Properties, PropertiesParseError>)
    ensures
        match r {
            Ok(props) => spec_read_properties(content@) == Ok::<_, (nat, LineKind)>(
                props.spec_entries(),
            ),
            Err(e) => {
                &&& spec_read_properties(content@) matches Err(err)
                &&& spec_read_properties(content@) matches Err(err) ==> {
                    &&& err.0 == e.line_number as nat
                    &&& match e.kind {
                        PropertiesParseErrorKind::Io(_) => err.1 is Unreadable,
                        PropertiesParseErrorKind::InvalidKeyValuePair(k) => (err.1
                            matches LineKind::Bad { line } && k.0@ == line),
                    }
                }
            },
        },
{
    let mut props = Properties { entries: Vec::new() };
    let mut start: usize = 0;
    let mut line_number: usize = 1;

    proof {
        assert(content@.skip(0) =~= content@);
        assert(props.spec_entries() =~= Seq::<(Seq<char>, Seq<char>)>::empty());
    }

    while start < content.len()
        invariant
            start <= content@.len(),
            1 <= line_number <= start + 1,
            spec_read_from(
                content@.skip(start as int),
                props.spec_entries(),
                line_number as nat,
            ) == spec_read_properties(content@),
        decreases content@.len() - start,
    {
        let ghost rest = content@.skip(start as int);
        let nl = find_byte(content, start, 10);
        let raw = &content[start..nl];
        proof {
            let i = spec_find_byte(rest, 10);
            assert(raw@ =~= rest.take(i));
            if i == rest.len() {
                assert(rest.take(i) =~= rest);
            }
        }
        let line: &[u8] = if raw.len() > 0 && raw[raw.len() - 1] == 13 {
            &raw[0..raw.len() - 1]
        } else {
            raw
        };
        proof {
            assert(line@ =~= spec_strip_cr(raw@));
        }

        match utf8_string(slice_to_vec(line)) {
            None => {
                return Err(
                    PropertiesParseError::new_io(
                        line_number,
                        "stream did not contain valid UTF-8".to_owned(),
                    ),
                );
            },
            Some(_) => {},
        }

        let trimmed = trim_slice(line);
        if trimmed.len() == 0 || trimmed[0] == 35 || trimmed[0] == 33 {
            // A blank or comment line: nothing to keep.
        } else {
            let eq = find_byte(trimmed, 0, 61);
            proof {
                assert(trimmed@.skip(0) =~= trimmed@);
            }
            if eq == trimmed.len() {
                match utf8_string(slice_to_vec(trimmed)) {
                    Some(s) => {
                        return Err(
                            PropertiesParseError::new_invalid_kvp(line_number, s.as_str()),
                        );
                    },
                    None => {
                        return Err(
                            PropertiesParseError::new_io(
                                line_number,
                                "stream did not contain valid UTF-8".to_owned(),
                            ),
                        );
                    },
                }
            } else {
                let key_b = trim_slice(&trimmed[0..eq]);
                let val_b = trim_slice(&trimmed[eq + 1..trimmed.len()]);
                proof {
                    assert(trimmed@.subrange(0, eq as int) =~= trimmed@.take(eq as int));
                    assert(trimmed@.subrange(eq as int + 1, trimmed@.len() as int)
                        =~= trimmed@.skip(eq as int + 1));
                }
                let key_s = utf8_string(slice_to_vec(key_b));
                let val_s = utf8_string(slice_to_vec(val_b));
                match (key_s, val_s) {
                    (Some(k), Some(v)) => {
                        insert_entry(&mut props.entries, k, v);
                    },
                    _ => {
                        return Err(
                            PropertiesParseError::new_io(
                                line_number,
                                "stream did not contain valid UTF-8".to_owned(),
                            ),
                        );
                    },
                }
            }
        }

        if nl == content.len() {
            start = content.len();
            proof {
                assert(content@.skip(start as int).len() == 0);
            }
        } else {
            proof {
                assert(rest.skip(spec_find_byte(rest, 10) + 1) =~= content@.skip(
                    nl as int + 1,
                ));
            }
            start = nl + 1;
            if start < content.len() {
                line_number = line_number + 1;
            } else {
                // The input is exhausted: the loop ends, and on an empty
                // remainder the line number no longer matters.
                proof {
                    assert(content@.skip(start as int).len() == 0);
                    assert(spec_read_from(
                        content@.skip(start as int),
                        props.spec_entries(),
                        (line_number + 1) as nat,
                    ) == Ok::<_, (nat, LineKind)>(props.spec_entries()));
                    assert(spec_read_from(
                        content@.skip(start as int),
                        props.spec_entries(),
                        line_number as nat,
                    ) == Ok::<_, (nat, LineKind)>(props.spec_entries()));
                }
            }
        }
    }
    proof {
        assert(content@.skip(start as int).len() == 0);
    }
    Ok(props)
}

} // verus!
