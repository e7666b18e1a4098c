//! The canonical encoding of an aspect: the sole wire/storage boundary.
//!
//! `serialize` produces a deterministic, self-delimiting text encoding —
//! a one-character case marker followed by the case's fields, each string
//! written as its decimal character count, a colon, and the characters
//! themselves. `deserialize` is its exact inverse: deserializing what
//! `serialize` produced gives back the serialized aspect
//! ([`lemma_round_trip`]), and nothing but a canonical encoding is ever
//! accepted ([`lemma_deserialize_canonical`]).

use vstd::prelude::*;
use vstd::string::{StrSliceExecFns, StringExecFns};
use crate::aspect::{addresses_model, AspectModel, EntryAspect};
use crate::types::{
    opt_address_model, Address, ChainHeader, Entry, EntryModel, HeaderModel, Link, LinkData,
    LinkDataModel, LinkModel,
};

verus! {

/// The decimal digit character for a value below ten.
pub open spec fn digit_char(d: int) -> char {
    if d == 0 {
        '0'
    } else if d == 1 {
        '1'
    } else if d == 2 {
        '2'
    } else if d == 3 {
        '3'
    } else if d == 4 {
        '4'
    } else if d == 5 {
        '5'
    } else if d == 6 {
        '6'
    } else if d == 7 {
        '7'
    } else if d == 8 {
        '8'
    } else {
        '9'
    }
}

/// The decimal rendering of a non-negative number, most significant digit
/// first, with no leading zeros.
pub open spec fn dec_digits(n: int) -> Seq<char>
    decreases n,
{
    if n < 10 {
        seq![digit_char(n)]
    } else {
        dec_digits(n / 10) + seq![digit_char(n % 10)]
    }
}

/// A length field: the decimal length followed by a colon.
pub open spec fn ser_len(n: int) -> Seq<char> {
    dec_digits(n) + seq![':']
}

/// A string field: its character count, a colon, and the characters.
pub open spec fn ser_str(s: Seq<char>) -> Seq<char> {
    ser_len(s.len() as int) + s
}

/// An optional string field: `-` when absent, `+` and the field when
/// present.
pub open spec fn ser_opt(o: Option<Seq<char>>) -> Seq<char> {
    match o {
        Option::Some(a) => seq!['+'] + ser_str(a),
        Option::None => seq!['-'],
    }
}

/// A header: its four facts in order.
pub open spec fn ser_header(h: HeaderModel) -> Seq<char> {
    ser_str(h.entry_type) + ser_str(h.entry_address) + ser_opt(h.link_update_delete) + ser_str(
        h.address,
    )
}

/// An entry: its content and its address.
pub open spec fn ser_entry(e: EntryModel) -> Seq<char> {
    ser_str(e.content) + ser_str(e.address)
}

/// A link: base, target, tag and link-type.
pub open spec fn ser_link(l: LinkModel) -> Seq<char> {
    ser_str(l.base) + ser_str(l.target) + ser_str(l.tag) + ser_str(l.link_type)
}

/// Link data: the link and its top chain header.
pub open spec fn ser_link_data(d: LinkDataModel) -> Seq<char> {
    ser_link(d.link) + ser_header(d.top_chain_header)
}

/// A sequence of addresses, one string field after the other.
pub open spec fn ser_addr_seq(rs: Seq<Seq<char>>) -> Seq<char>
    decreases rs.len(),
{
    if rs.len() == 0 {
        Seq::empty()
    } else {
        ser_str(rs[0]) + ser_addr_seq(rs.drop_first())
    }
}

/// A counted sequence of addresses: the count, then the addresses.
pub open spec fn ser_removed(rs: Seq<Seq<char>>) -> Seq<char> {
    ser_len(rs.len() as int) + ser_addr_seq(rs)
}

/// The canonical encoding of an aspect: a one-character case marker, then
/// the case's fields.
pub open spec fn ser_aspect(v: AspectModel) -> Seq<char> {
    match v {
        AspectModel::Content { entry, header } => seq!['C'] + ser_entry(entry) + ser_header(
            header,
        ),
        AspectModel::Header { header } => seq!['H'] + ser_header(header),
        AspectModel::LinkAdd { link, header } => seq!['A'] + ser_link_data(link) + ser_header(
            header,
        ),
        AspectModel::LinkRemove { link, removed, header } => seq!['R'] + ser_link_data(link)
            + ser_removed(removed) + ser_header(header),
        AspectModel::Update { entry, header } => seq!['U'] + ser_entry(entry) + ser_header(header),
        AspectModel::Deletion { header } => seq!['D'] + ser_header(header),
    }
}

proof fn lemma_ser_addr_seq_push(rs: Seq<Seq<char>>, x: Seq<char>)
    ensures
        ser_addr_seq(rs.push(x)) == ser_addr_seq(rs) + ser_str(x),
    decreases rs.len(),
{
    if rs.len() == 0 {
        assert(rs.push(x).drop_first() =~= rs);
        assert(ser_addr_seq(rs.push(x)) =~= ser_addr_seq(rs) + ser_str(x));
    } else {
        assert(rs.push(x).drop_first() =~= rs.drop_first().push(x));
        lemma_ser_addr_seq_push(rs.drop_first(), x);
        assert(ser_addr_seq(rs.push(x)) =~= ser_addr_seq(rs) + ser_str(x));
    }
}

/// Relies on `String::push` of std: appends exactly the one character.
#[verifier::external_body]
fn push_char(out: &mut String, c: char)
    ensures
        final(out)@ == old(out)@.push(c),
{
    out.push(c)
}

fn digit_char_x(d: usize) -> (c: char)
    requires
        d < 10,
    ensures
        c == digit_char(d as int),
{
    match d {
        0 => '0',
        1 => '1',
        2 => '2',
        3 => '3',
        4 => '4',
        5 => '5',
        6 => '6',
        7 => '7',
        8 => '8',
        _ => '9',
    }
}

fn write_digits(out: &mut String, n: usize)
    ensures
        final(out)@ == old(out)@ + dec_digits(n as int),
    decreases n,
{
    if n < 10 {
        push_char(out, digit_char_x(n));
        assert(final(out)@ =~= old(out)@ + dec_digits(n as int));
    } else {
        write_digits(out, n / 10);
        push_char(out, digit_char_x(n % 10));
        assert(final(out)@ =~= old(out)@ + dec_digits(n as int));
    }
}

fn write_len(out: &mut String, n: usize)
    ensures
        final(out)@ == old(out)@ + ser_len(n as int),
{
    write_digits(out, n);
    push_char(out, ':');
    assert(final(out)@ =~= old(out)@ + ser_len(n as int));
}

fn write_str(out: &mut String, s: &String)
    ensures
        final(out)@ == old(out)@ + ser_str(s@),
        fits(s@),
{
    let n = s.as_str().unicode_len();
    write_len(out, n);
    out.append(s.as_str());
    assert(final(out)@ =~= old(out)@ + ser_str(s@));
}

fn write_opt(out: &mut String, o: &Option<Address>)
    ensures
        final(out)@ == old(out)@ + ser_opt(opt_address_model(*o)),
        match opt_address_model(*o) {
            Option::Some(a) => fits(a),
            Option::None => true,
        },
{
    match o {
        Option::Some(a) => {
            push_char(out, '+');
            write_str(out, &a.key);
            assert(final(out)@ =~= old(out)@ + ser_opt(opt_address_model(*o)));
        },
        Option::None => {
            push_char(out, '-');
            assert(final(out)@ =~= old(out)@ + ser_opt(opt_address_model(*o)));
        },
    }
}

pub(crate) fn write_header(out: &mut String, h: &ChainHeader)
    ensures
        final(out)@ == old(out)@ + ser_header(h@),
        bounded_header(h@),
{
    write_str(out, &h.entry_type);
    write_str(out, &h.entry_address.key);
    write_opt(out, &h.link_update_delete);
    write_str(out, &h.address.key);
    assert(final(out)@ =~= old(out)@ + ser_header(h@));
}

fn write_entry(out: &mut String, e: &Entry)
    ensures
        final(out)@ == old(out)@ + ser_entry(e@),
        bounded_entry(e@),
{
    write_str(out, &e.content);
    write_str(out, &e.address.key);
    assert(final(out)@ =~= old(out)@ + ser_entry(e@));
}

fn write_link(out: &mut String, l: &Link)
    ensures
        final(out)@ == old(out)@ + ser_link(l@),
        bounded_link(l@),
{
    write_str(out, &l.base.key);
    write_str(out, &l.target.key);
    write_str(out, &l.tag);
    write_str(out, &l.link_type);
    assert(final(out)@ =~= old(out)@ + ser_link(l@));
}

fn write_link_data(out: &mut String, d: &LinkData)
    ensures
        final(out)@ == old(out)@ + ser_link_data(d@),
        bounded_link_data(d@),
{
    write_link(out, &d.link);
    write_header(out, &d.top_chain_header);
    assert(final(out)@ =~= old(out)@ + ser_link_data(d@));
}

fn write_removed(out: &mut String, rs: &Vec<Address>)
    ensures
        final(out)@ == old(out)@ + ser_removed(addresses_model(rs@)),
        addresses_model(rs@).len() <= usize::MAX,
        forall|k: int|
            0 <= k < addresses_model(rs@).len() ==> fits(#[trigger] addresses_model(rs@)[k]),
{
    write_len(out, rs.len());
    let ghost base = out@;
    let mut i: usize = 0;
    while i < rs.len()
        invariant
            i <= rs.len(),
            out@ == base + ser_addr_seq(addresses_model(rs@).take(i as int)),
            forall|k: int| 0 <= k < i ==> fits(#[trigger] addresses_model(rs@)[k]),
        decreases rs.len() - i,
    {
        write_str(out, &rs[i].key);
        proof {
            assert(addresses_model(rs@).take(i + 1) =~= addresses_model(rs@).take(i as int).push(
                rs@[i as int]@,
            ));
            lemma_ser_addr_seq_push(addresses_model(rs@).take(i as int), rs@[i as int]@);
            assert(out@ =~= base + ser_addr_seq(addresses_model(rs@).take(i + 1)));
        }
        i = i + 1;
    }
    proof {
        assert(addresses_model(rs@).take(rs@.len() as int) =~= addresses_model(rs@));
        assert(final(out)@ =~= old(out)@ + ser_removed(addresses_model(rs@)));
    }
}

impl EntryAspect {
    /// Produces the canonical, deterministic encoding of the aspect: equal
    /// aspects always serialize identically, and `deserialize` inverts the
    /// encoding exactly. The contract also establishes that the receiver's
    /// model is bounded, so [`lemma_round_trip`] applies to every value
    /// this is called on, with nothing left for the caller to show.
    pub fn serialize(&self) -> (r: String)
        ensures
            r@ == ser_aspect(self@),
            bounded_model(self@),
    {
        let mut out = String::new();
        match self {
            EntryAspect::Content(entry, header) => {
                push_char(&mut out, 'C');
                write_entry(&mut out, entry);
                write_header(&mut out, header);
                assert(out@ =~= ser_aspect(self@));
            },
            EntryAspect::Header(header) => {
                push_char(&mut out, 'H');
                write_header(&mut out, header);
                assert(out@ =~= ser_aspect(self@));
            },
            EntryAspect::LinkAdd(link_data, header) => {
                push_char(&mut out, 'A');
                write_link_data(&mut out, link_data);
                write_header(&mut out, header);
                assert(out@ =~= ser_aspect(self@));
            },
            EntryAspect::LinkRemove((link_data, removed), header) => {
                push_char(&mut out, 'R');
                write_link_data(&mut out, link_data);
                write_removed(&mut out, removed);
                write_header(&mut out, header);
                assert(out@ =~= ser_aspect(self@));
            },
            EntryAspect::Update(entry, header) => {
                push_char(&mut out, 'U');
                write_entry(&mut out, entry);
                write_header(&mut out, header);
                assert(out@ =~= ser_aspect(self@));
            },
            EntryAspect::Deletion(header) => {
                push_char(&mut out, 'D');
                write_header(&mut out, header);
                assert(out@ =~= ser_aspect(self@));
            },
        }
        out
    }
}

/// The value of a decimal digit character, or a negative number for any
/// other character.
pub open spec fn digit_val(c: char) -> int {
    if c == '0' {
        0
    } else if c == '1' {
        1
    } else if c == '2' {
        2
    } else if c == '3' {
        3
    } else if c == '4' {
        4
    } else if c == '5' {
        5
    } else if c == '6' {
        6
    } else if c == '7' {
        7
    } else if c == '8' {
        8
    } else if c == '9' {
        9
    } else {
        -1
    }
}

/// Consumes decimal digits from position `i` on, accumulating their value
/// onto `acc`; fails if the value would not fit a machine word.
pub open spec fn parse_digits(s: Seq<char>, i: int, acc: int) -> Option<(int, int)>
    decreases s.len() - i,
{
    if i < s.len() && digit_val(s[i]) >= 0 {
        if acc * 10 + digit_val(s[i]) > usize::MAX as int {
            Option::None
        } else {
            parse_digits(s, i + 1, acc * 10 + digit_val(s[i]))
        }
    } else {
        Option::Some((acc, i))
    }
}

/// Consumes a length field: decimal digits without leading zeros, then a
/// colon.
pub open spec fn parse_len(s: Seq<char>, i: int) -> Option<(int, int)> {
    if i < s.len() && digit_val(s[i]) >= 0 {
        if s[i] == '0' {
            if i + 1 < s.len() && s[i + 1] == ':' {
                Option::Some((0, i + 2))
            } else {
                Option::None
            }
        } else {
            match parse_digits(s, i, 0) {
                Option::Some((n, j)) => if j < s.len() && s[j] == ':' {
                    Option::Some((n, j + 1))
                } else {
                    Option::None
                },
                Option::None => Option::None,
            }
        }
    } else {
        Option::None
    }
}

/// Consumes a string field: a length field, then that many characters.
pub open spec fn parse_str(s: Seq<char>, i: int) -> Option<(Seq<char>, int)> {
    match parse_len(s, i) {
        Option::Some((n, j)) => if j + n <= s.len() {
            Option::Some((s.subrange(j, j + n), j + n))
        } else {
            Option::None
        },
        Option::None => Option::None,
    }
}

/// Consumes an optional string field.
pub open spec fn parse_opt(s: Seq<char>, i: int) -> Option<(Option<Seq<char>>, int)> {
    if i < s.len() {
        if s[i] == '-' {
            Option::Some((Option::None, i + 1))
        } else if s[i] == '+' {
            match parse_str(s, i + 1) {
                Option::Some((x, j)) => Option::Some((Option::Some(x), j)),
                Option::None => Option::None,
            }
        } else {
            Option::None
        }
    } else {
        Option::None
    }
}

/// Consumes a header: its four facts in order.
pub open spec fn parse_header(s: Seq<char>, i: int) -> Option<(HeaderModel, int)> {
    match parse_str(s, i) {
        Option::Some((entry_type, i1)) => match parse_str(s, i1) {
            Option::Some((entry_address, i2)) => match parse_opt(s, i2) {
                Option::Some((link_update_delete, i3)) => match parse_str(s, i3) {
                    Option::Some((address, i4)) => Option::Some(
                        (
                            HeaderModel { entry_type, entry_address, link_update_delete, address },
                            i4,
                        ),
                    ),
                    Option::None => Option::None,
                },
                Option::None => Option::None,
            },
            Option::None => Option::None,
        },
        Option::None => Option::None,
    }
}

/// Consumes an entry: its content and its address.
pub open spec fn parse_entry(s: Seq<char>, i: int) -> Option<(EntryModel, int)> {
    match parse_str(s, i) {
        Option::Some((content, i1)) => match parse_str(s, i1) {
            Option::Some((address, i2)) => Option::Some((EntryModel { content, address }, i2)),
            Option::None => Option::None,
        },
        Option::None => Option::None,
    }
}

/// Consumes a link: base, target, tag and link-type.
pub open spec fn parse_link(s: Seq<char>, i: int) -> Option<(LinkModel, int)> {
    match parse_str(s, i) {
        Option::Some((base, i1)) => match parse_str(s, i1) {
            Option::Some((target, i2)) => match parse_str(s, i2) {
                Option::Some((tag, i3)) => match parse_str(s, i3) {
                    Option::Some((link_type, i4)) => Option::Some(
                        (LinkModel { base, target, tag, link_type }, i4),
                    ),
                    Option::None => Option::None,
                },
                Option::None => Option::None,
            },
            Option::None => Option::None,
        },
        Option::None => Option::None,
    }
}

/// Consumes link data: the link and its top chain header.
pub open spec fn parse_link_data(s: Seq<char>, i: int) -> Option<(LinkDataModel, int)> {
    match parse_link(s, i) {
        Option::Some((link, i1)) => match parse_header(s, i1) {
            Option::Some((top_chain_header, i2)) => Option::Some(
                (LinkDataModel { link, top_chain_header }, i2),
            ),
            Option::None => Option::None,
        },
        Option::None => Option::None,
    }
}

/// Consumes exactly `k` string fields.
pub open spec fn parse_addr_seq(s: Seq<char>, i: int, k: int) -> Option<(Seq<Seq<char>>, int)>
    decreases k,
{
    if k <= 0 {
        Option::Some((Seq::empty(), i))
    } else {
        match parse_str(s, i) {
            Option::Some((x, j)) => match parse_addr_seq(s, j, k - 1) {
                Option::Some((rest, j2)) => Option::Some((seq![x] + rest, j2)),
                Option::None => Option::None,
            },
            Option::None => Option::None,
        }
    }
}

/// Consumes a counted sequence of addresses.
pub open spec fn parse_removed(s: Seq<char>, i: int) -> Option<(Seq<Seq<char>>, int)> {
    match parse_len(s, i) {
        Option::Some((n, j)) => parse_addr_seq(s, j, n),
        Option::None => Option::None,
    }
}

/// Consumes one aspect: the case marker, then the case's fields.
pub open spec fn parse_aspect(s: Seq<char>, i: int) -> Option<(AspectModel, int)> {
    if i < s.len() {
        if s[i] == 'C' {
            match parse_entry(s, i + 1) {
                Option::Some((entry, j)) => match parse_header(s, j) {
                    Option::Some((header, j2)) => Option::Some(
                        (AspectModel::Content { entry, header }, j2),
                    ),
                    Option::None => Option::None,
                },
                Option::None => Option::None,
            }
        } else if s[i] == 'H' {
            match parse_header(s, i + 1) {
                Option::Some((header, j)) => Option::Some((AspectModel::Header { header }, j)),
                Option::None => Option::None,
            }
        } else if s[i] == 'A' {
            match parse_link_data(s, i + 1) {
                Option::Some((link, j)) => match parse_header(s, j) {
                    Option::Some((header, j2)) => Option::Some(
                        (AspectModel::LinkAdd { link, header }, j2),
                    ),
                    Option::None => Option::None,
                },
                Option::None => Option::None,
            }
        } else if s[i] == 'R' {
            match parse_link_data(s, i + 1) {
                Option::Some((link, j)) => match parse_removed(s, j) {
                    Option::Some((removed, j2)) => match parse_header(s, j2) {
                        Option::Some((header, j3)) => Option::Some(
                            (AspectModel::LinkRemove { link, removed, header }, j3),
                        ),
                        Option::None => Option::None,
                    },
                    Option::None => Option::None,
                },
                Option::None => Option::None,
            }
        } else if s[i] == 'U' {
            match parse_entry(s, i + 1) {
                Option::Some((entry, j)) => match parse_header(s, j) {
                    Option::Some((header, j2)) => Option::Some(
                        (AspectModel::Update { entry, header }, j2),
                    ),
                    Option::None => Option::None,
                },
                Option::None => Option::None,
            }
        } else if s[i] == 'D' {
            match parse_header(s, i + 1) {
                Option::Some((header, j)) => Option::Some((AspectModel::Deletion { header }, j)),
                Option::None => Option::None,
            }
        } else {
            Option::None
        }
    } else {
        Option::None
    }
}

/// What `deserialize` accepts and returns: one aspect, consuming the whole
/// input.
pub open spec fn spec_deserialize(s: Seq<char>) -> Option<AspectModel> {
    match parse_aspect(s, 0) {
        Option::Some((v, j)) => if j == s.len() {
            Option::Some(v)
        } else {
            Option::None
        },
        Option::None => Option::None,
    }
}

fn digit_val_x(c: char) -> (r: Option<usize>)
    ensures
        match r {
            Option::Some(d) => digit_val(c) == d as int && d <= 9,
            Option::None => digit_val(c) < 0,
        },
{
    if c == '0' {
        Option::Some(0)
    } else if c == '1' {
        Option::Some(1)
    } else if c == '2' {
        Option::Some(2)
    } else if c == '3' {
        Option::Some(3)
    } else if c == '4' {
        Option::Some(4)
    } else if c == '5' {
        Option::Some(5)
    } else if c == '6' {
        Option::Some(6)
    } else if c == '7' {
        Option::Some(7)
    } else if c == '8' {
        Option::Some(8)
    } else if c == '9' {
        Option::Some(9)
    } else {
        Option::None
    }
}

fn parse_digits_x(s: &str, n: usize, i: usize) -> (r: Option<(usize, usize)>)
    requires
        n == s@.len(),
        i <= n,
    ensures
        match r {
            Option::Some((v, j)) => parse_digits(s@, i as int, 0) == Option::Some(
                (v as int, j as int),
            ) && i <= j <= n,
            Option::None => parse_digits(s@, i as int, 0) is None,
        },
{
    let mut acc: usize = 0;
    let mut j: usize = i;
    loop
        invariant
            n == s@.len(),
            i <= j <= n,
            parse_digits(s@, i as int, 0) == parse_digits(s@, j as int, acc as int),
        decreases n - j,
    {
        if j < n {
            let c = s.get_char(j);
            match digit_val_x(c) {
                Option::Some(d) => {
                    let lim = (usize::MAX - d) / 10;
                    proof {
                        let m = (usize::MAX - d) as int;
                        assert(10 * (m / 10) + (m % 10) == m);
                        assert(0 <= m % 10 < 10);
                    }
                    if acc > lim {
                        assert(acc as int * 10 + d as int > usize::MAX as int);
                        return Option::None;
                    }
                    assert(acc as int * 10 + d as int <= usize::MAX as int);
                    acc = acc * 10 + d;
                    j = j + 1;
                },
                Option::None => {
                    return Option::Some((acc, j));
                },
            }
        } else {
            return Option::Some((acc, j));
        }
    }
}

fn parse_len_x(s: &str, n: usize, i: usize) -> (r: Option<(usize, usize)>)
    requires
        n == s@.len(),
        i <= n,
    ensures
        match r {
            Option::Some((v, j)) => parse_len(s@, i as int) == Option::Some((v as int, j as int))
                && i < j <= n,
            Option::None => parse_len(s@, i as int) is None,
        },
{
    if i >= n {
        return Option::None;
    }
    let c = s.get_char(i);
    match digit_val_x(c) {
        Option::None => Option::None,
        Option::Some(_) => {
            if c == '0' {
                if i + 1 < n {
                    let c2 = s.get_char(i + 1);
                    if c2 == ':' {
                        Option::Some((0, i + 2))
                    } else {
                        Option::None
                    }
                } else {
                    Option::None
                }
            } else {
                match parse_digits_x(s, n, i) {
                    Option::Some((v, j)) => {
                        if j < n {
                            let c2 = s.get_char(j);
                            if c2 == ':' {
                                Option::Some((v, j + 1))
                            } else {
                                Option::None
                            }
                        } else {
                            Option::None
                        }
                    },
                    Option::None => Option::None,
                }
            }
        },
    }
}

fn parse_str_x(s: &str, n: usize, i: usize) -> (r: Option<(String, usize)>)
    requires
        n == s@.len(),
        i <= n,
    ensures
        match r {
            Option::Some((x, j)) => parse_str(s@, i as int) == Option::Some((x@, j as int)) && i
                < j <= n,
            Option::None => parse_str(s@, i as int) is None,
        },
{
    match parse_len_x(s, n, i) {
        Option::Some((len, j)) => {
            if len <= n - j {
                let sub = s.substring_char(j, j + len);
                let x = String::from_str(sub);
                Option::Some((x, j + len))
            } else {
                Option::None
            }
        },
        Option::None => Option::None,
    }
}

fn parse_opt_x(s: &str, n: usize, i: usize) -> (r: Option<(Option<Address>, usize)>)
    requires
        n == s@.len(),
        i <= n,
    ensures
        match r {
            Option::Some((o, j)) => parse_opt(s@, i as int) == Option::Some(
                (opt_address_model(o), j as int),
            ) && i < j <= n,
            Option::None => parse_opt(s@, i as int) is None,
        },
{
    if i >= n {
        return Option::None;
    }
    let c = s.get_char(i);
    if c == '-' {
        Option::Some((Option::None, i + 1))
    } else if c == '+' {
        match parse_str_x(s, n, i + 1) {
            Option::Some((x, j)) => Option::Some((Option::Some(Address { key: x }), j)),
            Option::None => Option::None,
        }
    } else {
        Option::None
    }
}

fn parse_header_x(s: &str, n: usize, i: usize) -> (r: Option<(ChainHeader, usize)>)
    requires
        n == s@.len(),
        i <= n,
    ensures
        match r {
            Option::Some((h, j)) => parse_header(s@, i as int) == Option::Some((h@, j as int))
                && i < j <= n,
            Option::None => parse_header(s@, i as int) is None,
        },
{
    let (entry_type, i1) = match parse_str_x(s, n, i) {
        Option::Some(p) => p,
        Option::None => {
            return Option::None;
        },
    };
    let (entry_address, i2) = match parse_str_x(s, n, i1) {
        Option::Some(p) => p,
        Option::None => {
            return Option::None;
        },
    };
    let (link_update_delete, i3) = match parse_opt_x(s, n, i2) {
        Option::Some(p) => p,
        Option::None => {
            return Option::None;
        },
    };
    let (address, i4) = match parse_str_x(s, n, i3) {
        Option::Some(p) => p,
        Option::None => {
            return Option::None;
        },
    };
    let h = ChainHeader {
        entry_type,
        entry_address: Address { key: entry_address },
        link_update_delete,
        address: Address { key: address },
    };
    Option::Some((h, i4))
}

fn parse_entry_x(s: &str, n: usize, i: usize) -> (r: Option<(Entry, usize)>)
    requires
        n == s@.len(),
        i <= n,
    ensures
        match r {
            Option::Some((e, j)) => parse_entry(s@, i as int) == Option::Some((e@, j as int)) && i
                < j <= n,
            Option::None => parse_entry(s@, i as int) is None,
        },
{
    let (content, i1) = match parse_str_x(s, n, i) {
        Option::Some(p) => p,
        Option::None => {
            return Option::None;
        },
    };
    let (address, i2) = match parse_str_x(s, n, i1) {
        Option::Some(p) => p,
        Option::None => {
            return Option::None;
        },
    };
    Option::Some((Entry { content, address: Address { key: address } }, i2))
}

fn parse_link_x(s: &str, n: usize, i: usize) -> (r: Option<(Link, usize)>)
    requires
        n == s@.len(),
        i <= n,
    ensures
        match r {
            Option::Some((l, j)) => parse_link(s@, i as int) == Option::Some((l@, j as int)) && i
                < j <= n,
            Option::None => parse_link(s@, i as int) is None,
        },
{
    let (base, i1) = match parse_str_x(s, n, i) {
        Option::Some(p) => p,
        Option::None => {
            return Option::None;
        },
    };
    let (target, i2) = match parse_str_x(s, n, i1) {
        Option::Some(p) => p,
        Option::None => {
            return Option::None;
        },
    };
    let (tag, i3) = match parse_str_x(s, n, i2) {
        Option::Some(p) => p,
        Option::None => {
            return Option::None;
        },
    };
    let (link_type, i4) = match parse_str_x(s, n, i3) {
        Option::Some(p) => p,
        Option::None => {
            return Option::None;
        },
    };
    let l = Link {
        base: Address { key: base },
        target: Address { key: target },
        tag,
        link_type,
    };
    Option::Some((l, i4))
}

fn parse_link_data_x(s: &str, n: usize, i: usize) -> (r: Option<(LinkData, usize)>)
    requires
        n == s@.len(),
        i <= n,
    ensures
        match r {
            Option::Some((d, j)) => parse_link_data(s@, i as int) == Option::Some((d@, j as int))
                && i < j <= n,
            Option::None => parse_link_data(s@, i as int) is None,
        },
{
    let (link, i1) = match parse_link_x(s, n, i) {
        Option::Some(p) => p,
        Option::None => {
            return Option::None;
        },
    };
    let (top_chain_header, i2) = match parse_header_x(s, n, i1) {
        Option::Some(p) => p,
        Option::None => {
            return Option::None;
        },
    };
    Option::Some((LinkData { link, top_chain_header }, i2))
}

proof fn lemma_parse_addr_seq_split(s: Seq<char>, i: int, k1: int, k2: int)
    requires
        0 <= k1,
        0 <= k2,
        parse_addr_seq(s, i, k1) is Some,
    ensures
        match parse_addr_seq(s, i, k1) {
            Option::Some((xs, j)) => parse_addr_seq(s, i, k1 + k2) == match parse_addr_seq(
                s,
                j,
                k2,
            ) {
                Option::Some((ys, j2)) => Option::Some((xs + ys, j2)),
                Option::None => Option::None::<(Seq<Seq<char>>, int)>,
            },
            Option::None => true,
        },
    decreases k1,
{
    if k1 == 0 {
        match parse_addr_seq(s, i, k2) {
            Option::Some((ys, j2)) => {
                assert(Seq::<Seq<char>>::empty() + ys =~= ys);
            },
            Option::None => {},
        }
    } else {
        match parse_str(s, i) {
            Option::Some((x0, j0)) => {
                lemma_parse_addr_seq_split(s, j0, k1 - 1, k2);
                match parse_addr_seq(s, j0, k1 - 1) {
                    Option::Some((xs1, j1)) => {
                        match parse_addr_seq(s, j1, k2) {
                            Option::Some((ys, j2)) => {
                                assert(seq![x0] + (xs1 + ys) =~= (seq![x0] + xs1) + ys);
                            },
                            Option::None => {},
                        }
                    },
                    Option::None => {
                        assert(false);
                    },
                }
            },
            Option::None => {
                assert(false);
            },
        }
    }
}

fn parse_removed_x(s: &str, n: usize, i: usize) -> (r: Option<(Vec<Address>, usize)>)
    requires
        n == s@.len(),
        i <= n,
    ensures
        match r {
            Option::Some((v, j)) => parse_removed(s@, i as int) == Option::Some(
                (addresses_model(v@), j as int),
            ) && i < j <= n,
            Option::None => parse_removed(s@, i as int) is None,
        },
{
    let (cnt, j0) = match parse_len_x(s, n, i) {
        Option::Some(p) => p,
        Option::None => {
            return Option::None;
        },
    };
    let mut out: Vec<Address> = Vec::new();
    let mut cur: usize = j0;
    let mut k: usize = 0;
    assert(addresses_model(out@) =~= Seq::<Seq<char>>::empty());
    while k < cnt
        invariant
            n == s@.len(),
            i < j0 <= cur <= n,
            k <= cnt,
            parse_len(s@, i as int) == Option::Some((cnt as int, j0 as int)),
            parse_addr_seq(s@, j0 as int, k as int) == Option::Some(
                (addresses_model(out@), cur as int),
            ),
        decreases cnt - k,
    {
        match parse_str_x(s, n, cur) {
            Option::Some((x, j2)) => {
                let ghost gx = x@;
                let ghost pre = addresses_model(out@);
                proof {
                    lemma_parse_addr_seq_split(s@, j0 as int, k as int, 1);
                    assert(parse_addr_seq(s@, j2 as int, 0) == Option::Some(
                        (Seq::<Seq<char>>::empty(), j2 as int),
                    ));
                    assert(seq![gx] + Seq::<Seq<char>>::empty() =~= seq![gx]);
                    assert(parse_addr_seq(s@, cur as int, 1) == Option::Some(
                        (seq![gx], j2 as int),
                    ));
                }
                out.push(Address { key: x });
                cur = j2;
                k = k + 1;
                proof {
                    assert(addresses_model(out@) =~= pre + seq![gx]);
                }
            },
            Option::None => {
                proof {
                    lemma_parse_addr_seq_split(s@, j0 as int, k as int, cnt - k);
                }
                return Option::None;
            },
        }
    }
    Option::Some((out, cur))
}

fn parse_aspect_x(s: &str, n: usize, i: usize) -> (r: Option<(EntryAspect, usize)>)
    requires
        n == s@.len(),
        i <= n,
    ensures
        match r {
            Option::Some((a, j)) => parse_aspect(s@, i as int) == Option::Some((a@, j as int))
                && i < j <= n,
            Option::None => parse_aspect(s@, i as int) is None,
        },
{
    if i >= n {
        return Option::None;
    }
    let c = s.get_char(i);
    if c == 'C' {
        let (entry, j) = match parse_entry_x(s, n, i + 1) {
            Option::Some(p) => p,
            Option::None => {
                return Option::None;
            },
        };
        let (header, j2) = match parse_header_x(s, n, j) {
            Option::Some(p) => p,
            Option::None => {
                return Option::None;
            },
        };
        Option::Some((EntryAspect::Content(entry, header), j2))
    } else if c == 'H' {
        let (header, j) = match parse_header_x(s, n, i + 1) {
            Option::Some(p) => p,
            Option::None => {
                return Option::None;
            },
        };
        Option::Some((EntryAspect::Header(header), j))
    } else if c == 'A' {
        let (link, j) = match parse_link_data_x(s, n, i + 1) {
            Option::Some(p) => p,
            Option::None => {
                return Option::None;
            },
        };
        let (header, j2) = match parse_header_x(s, n, j) {
            Option::Some(p) => p,
            Option::None => {
                return Option::None;
            },
        };
        Option::Some((EntryAspect::LinkAdd(link, header), j2))
    } else if c == 'R' {
        let (link, j) = match parse_link_data_x(s, n, i + 1) {
            Option::Some(p) => p,
            Option::None => {
                return Option::None;
            },
        };
        let (removed, j2) = match parse_removed_x(s, n, j) {
            Option::Some(p) => p,
            Option::None => {
                return Option::None;
            },
        };
        let (header, j3) = match parse_header_x(s, n, j2) {
            Option::Some(p) => p,
            Option::None => {
                return Option::None;
            },
        };
        Option::Some((EntryAspect::LinkRemove((link, removed), header), j3))
    } else if c == 'U' {
        let (entry, j) = match parse_entry_x(s, n, i + 1) {
            Option::Some(p) => p,
            Option::None => {
                return Option::None;
            },
        };
        let (header, j2) = match parse_header_x(s, n, j) {
            Option::Some(p) => p,
            Option::None => {
                return Option::None;
            },
        };
        Option::Some((EntryAspect::Update(entry, header), j2))
    } else if c == 'D' {
        let (header, j) = match parse_header_x(s, n, i + 1) {
            Option::Some(p) => p,
            Option::None => {
                return Option::None;
            },
        };
        Option::Some((EntryAspect::Deletion(header), j))
    } else {
        Option::None
    }
}

/// Malformed or structurally invalid encoded input: nothing but the
/// canonical encoding of an aspect is accepted.
#[derive(Debug)]
pub enum DeserializationError {
    Malformed,
}

impl EntryAspect {
    /// Parses the canonical encoding back into an aspect. Succeeds exactly
    /// on the encodings [`spec_deserialize`] accepts: on everything
    /// `serialize` produces, returning the serialized aspect
    /// ([`lemma_round_trip`]), and on nothing else
    /// ([`lemma_deserialize_canonical`]). Reports malformed input
    /// otherwise.
    pub fn deserialize(s: &str) -> (r: Result<EntryAspect, DeserializationError>)
        ensures
            r is Ok <==> spec_deserialize(s@) is Some,
            match r {
                Result::Ok(a) => spec_deserialize(s@) == Option::Some(a@),
                Result::Err(e) => e is Malformed,
            },
    {
        let n = s.unicode_len();
        match parse_aspect_x(s, n, 0) {
            Option::Some((a, j)) => {
                if j == n {
                    Result::Ok(a)
                } else {
                    Result::Err(DeserializationError::Malformed)
                }
            },
            Option::None => Result::Err(DeserializationError::Malformed),
        }
    }
}

/// The sequence fits a machine word, as every view of an executable string
/// does: a string never holds more than `usize::MAX` characters.
pub open spec fn fits(s: Seq<char>) -> bool {
    s.len() <= usize::MAX
}

/// Every string fact of the header fits a machine word.
pub open spec fn bounded_header(h: HeaderModel) -> bool {
    &&& fits(h.entry_type)
    &&& fits(h.entry_address)
    &&& match h.link_update_delete {
        Option::Some(a) => fits(a),
        Option::None => true,
    }
    &&& fits(h.address)
}

/// Every string fact of the entry fits a machine word.
pub open spec fn bounded_entry(e: EntryModel) -> bool {
    fits(e.content) && fits(e.address)
}

/// Every string fact of the link fits a machine word.
pub open spec fn bounded_link(l: LinkModel) -> bool {
    fits(l.base) && fits(l.target) && fits(l.tag) && fits(l.link_type)
}

/// Every string fact of the link data fits a machine word.
pub open spec fn bounded_link_data(d: LinkDataModel) -> bool {
    bounded_link(d.link) && bounded_header(d.top_chain_header)
}

/// Every string and every count in the aspect fits a machine word. This
/// holds of the model of every constructible aspect value; it only rules
/// out models beyond what a machine can represent.
pub open spec fn bounded_model(v: AspectModel) -> bool {
    match v {
        AspectModel::Content { entry, header } => bounded_entry(entry) && bounded_header(header),
        AspectModel::Header { header } => bounded_header(header),
        AspectModel::LinkAdd { link, header } => bounded_link_data(link) && bounded_header(header),
        AspectModel::LinkRemove { link, removed, header } => {
            &&& bounded_link_data(link)
            &&& removed.len() <= usize::MAX
            &&& forall|k: int| 0 <= k < removed.len() ==> fits(#[trigger] removed[k])
            &&& bounded_header(header)
        },
        AspectModel::Update { entry, header } => bounded_entry(entry) && bounded_header(header),
        AspectModel::Deletion { header } => bounded_header(header),
    }
}

/// `w` stands verbatim in `s` at position `i`.
pub open spec fn embedded(s: Seq<char>, i: int, w: Seq<char>) -> bool {
    0 <= i && i + w.len() <= s.len() && s.subrange(i, i + w.len()) == w
}

proof fn lemma_split2(s: Seq<char>, i: int, a: Seq<char>, b: Seq<char>)
    requires
        embedded(s, i, a + b),
    ensures
        embedded(s, i, a),
        embedded(s, i + a.len(), b),
{
    let w = a + b;
    assert forall|k: int| 0 <= k < w.len() implies s[i + k] == w[k] by {
        assert(s.subrange(i, i + w.len())[k] == s[i + k]);
    }
    assert forall|k: int| 0 <= k < a.len() implies s.subrange(i, i + a.len())[k] == a[k] by {
        assert(s[i + k] == w[k]);
    }
    assert(s.subrange(i, i + a.len()) =~= a);
    assert forall|k: int|
        0 <= k < b.len() implies s.subrange(i + a.len(), i + a.len() + b.len())[k] == b[k] by {
        assert(s[i + (a.len() + k)] == w[a.len() + k]);
        assert(w[a.len() + k] == b[k]);
    }
    assert(s.subrange(i + a.len(), i + a.len() + b.len()) =~= b);
}

pub open spec fn pow10(k: int) -> int
    decreases k,
{
    if k <= 0 {
        1
    } else {
        10 * pow10(k - 1)
    }
}

proof fn lemma_pow10_pos(k: int)
    ensures
        pow10(k) >= 1,
    decreases k,
{
    if k > 0 {
        lemma_pow10_pos(k - 1);
    }
}

proof fn lemma_digit_roundtrip(d: int)
    requires
        0 <= d <= 9,
    ensures
        digit_val(digit_char(d)) == d,
{
}

proof fn lemma_dec_digits_first(n: int)
    requires
        1 <= n,
    ensures
        dec_digits(n).len() >= 1,
        digit_val(dec_digits(n)[0]) >= 1,
    decreases n,
{
    if n < 10 {
        lemma_digit_roundtrip(n);
    } else {
        lemma_dec_digits_first(n / 10);
        assert(dec_digits(n)[0] == dec_digits(n / 10)[0]);
    }
}

proof fn lemma_parse_digits_embed(s: Seq<char>, i: int, n: int, a: int)
    requires
        0 <= n,
        0 <= a,
        embedded(s, i, dec_digits(n)),
        a * pow10(dec_digits(n).len() as int) + n <= usize::MAX as int,
    ensures
        parse_digits(s, i, a) == parse_digits(
            s,
            i + dec_digits(n).len(),
            a * pow10(dec_digits(n).len() as int) + n,
        ),
    decreases n,
{
    let w = dec_digits(n);
    if n < 10 {
        assert(w == seq![digit_char(n)]);
        assert(s.subrange(i, i + 1)[0] == s[i]);
        assert(s[i] == digit_char(n));
        lemma_digit_roundtrip(n);
        assert(pow10(0) == 1);
        assert(pow10(1) == 10);
    } else {
        let m = n / 10;
        let d = n % 10;
        let wm = dec_digits(m);
        assert(w == wm + seq![digit_char(d)]);
        lemma_split2(s, i, wm, seq![digit_char(d)]);
        let p = pow10(wm.len() as int);
        lemma_pow10_pos(wm.len() as int);
        assert(w.len() == wm.len() + 1);
        assert(pow10(w.len() as int) == 10 * p);
        let big = a * pow10(w.len() as int) + n;
        assert(a * (10 * p) == (a * p) * 10) by (nonlinear_arith);
        assert(0 <= a * p) by (nonlinear_arith)
            requires
                0 <= a,
                1 <= p,
        ;
        assert(n == 10 * m + d);
        let mid = a * p + m;
        assert(mid * 10 + d == big);
        assert(mid <= big);
        lemma_parse_digits_embed(s, i, m, a);
        let j = i + wm.len();
        assert(s.subrange(j, j + 1)[0] == s[j]);
        assert(s[j] == digit_char(d));
        lemma_digit_roundtrip(d);
        assert(parse_digits(s, j, mid) == parse_digits(s, j + 1, big));
    }
}

proof fn lemma_parse_len_embed(s: Seq<char>, i: int, n: int)
    requires
        0 <= n <= usize::MAX as int,
        embedded(s, i, ser_len(n)),
    ensures
        parse_len(s, i) == Option::Some((n, i + ser_len(n).len())),
{
    let w = dec_digits(n);
    lemma_split2(s, i, w, seq![':']);
    assert(s.subrange(i + w.len(), i + w.len() + 1)[0] == s[i + w.len()]);
    assert(s[i + w.len()] == ':');
    if n == 0 {
        assert(w == seq![digit_char(0)]);
        assert(s.subrange(i, i + 1)[0] == s[i]);
        assert(s[i] == '0');
        assert(s[i + 1] == ':');
    } else {
        lemma_dec_digits_first(n);
        assert(s.subrange(i, i + w.len())[0] == s[i]);
        assert(s[i] == w[0]);
        assert(digit_val(s[i]) >= 1);
        lemma_pow10_pos(w.len() as int);
        assert(0 * pow10(w.len() as int) == 0);
        lemma_parse_digits_embed(s, i, n, 0);
        let j = i + w.len();
        assert(digit_val(':') < 0);
        assert(parse_digits(s, j, n) == Option::Some((n, j)));
    }
}

proof fn lemma_parse_str_embed(s: Seq<char>, i: int, x: Seq<char>)
    requires
        fits(x),
        embedded(s, i, ser_str(x)),
    ensures
        parse_str(s, i) == Option::Some((x, i + ser_str(x).len())),
{
    lemma_split2(s, i, ser_len(x.len() as int), x);
    lemma_parse_len_embed(s, i, x.len() as int);
    let j = i + ser_len(x.len() as int).len();
    assert(s.subrange(j, j + x.len()) == x);
}

proof fn lemma_parse_opt_embed(s: Seq<char>, i: int, o: Option<Seq<char>>)
    requires
        match o {
            Option::Some(a) => fits(a),
            Option::None => true,
        },
        embedded(s, i, ser_opt(o)),
    ensures
        parse_opt(s, i) == Option::Some((o, i + ser_opt(o).len())),
{
    match o {
        Option::None => {
            assert(s.subrange(i, i + 1)[0] == s[i]);
            assert(s[i] == '-');
        },
        Option::Some(a) => {
            lemma_split2(s, i, seq!['+'], ser_str(a));
            assert(s.subrange(i, i + 1)[0] == s[i]);
            assert(s[i] == '+');
            lemma_parse_str_embed(s, i + 1, a);
        },
    }
}

proof fn lemma_parse_header_embed(s: Seq<char>, i: int, h: HeaderModel)
    requires
        bounded_header(h),
        embedded(s, i, ser_header(h)),
    ensures
        parse_header(s, i) == Option::Some((h, i + ser_header(h).len())),
{
    let w1 = ser_str(h.entry_type);
    let w2 = ser_str(h.entry_address);
    let w3 = ser_opt(h.link_update_delete);
    let w4 = ser_str(h.address);
    assert(w1 + w2 + w3 + w4 =~= w1 + (w2 + w3 + w4));
    lemma_split2(s, i, w1, w2 + w3 + w4);
    lemma_parse_str_embed(s, i, h.entry_type);
    let i1 = i + w1.len();
    assert(w2 + w3 + w4 =~= w2 + (w3 + w4));
    lemma_split2(s, i1, w2, w3 + w4);
    lemma_parse_str_embed(s, i1, h.entry_address);
    let i2 = i1 + w2.len();
    lemma_split2(s, i2, w3, w4);
    lemma_parse_opt_embed(s, i2, h.link_update_delete);
    let i3 = i2 + w3.len();
    lemma_parse_str_embed(s, i3, h.address);
    assert(HeaderModel {
        entry_type: h.entry_type,
        entry_address: h.entry_address,
        link_update_delete: h.link_update_delete,
        address: h.address,
    } =~= h);
}

proof fn lemma_parse_entry_embed(s: Seq<char>, i: int, e: EntryModel)
    requires
        bounded_entry(e),
        embedded(s, i, ser_entry(e)),
    ensures
        parse_entry(s, i) == Option::Some((e, i + ser_entry(e).len())),
{
    let w1 = ser_str(e.content);
    let w2 = ser_str(e.address);
    lemma_split2(s, i, w1, w2);
    lemma_parse_str_embed(s, i, e.content);
    lemma_parse_str_embed(s, i + w1.len(), e.address);
    assert(EntryModel { content: e.content, address: e.address } =~= e);
}

proof fn lemma_parse_link_embed(s: Seq<char>, i: int, l: LinkModel)
    requires
        bounded_link(l),
        embedded(s, i, ser_link(l)),
    ensures
        parse_link(s, i) == Option::Some((l, i + ser_link(l).len())),
{
    let w1 = ser_str(l.base);
    let w2 = ser_str(l.target);
    let w3 = ser_str(l.tag);
    let w4 = ser_str(l.link_type);
    assert(w1 + w2 + w3 + w4 =~= w1 + (w2 + w3 + w4));
    lemma_split2(s, i, w1, w2 + w3 + w4);
    lemma_parse_str_embed(s, i, l.base);
    let i1 = i + w1.len();
    assert(w2 + w3 + w4 =~= w2 + (w3 + w4));
    lemma_split2(s, i1, w2, w3 + w4);
    lemma_parse_str_embed(s, i1, l.target);
    let i2 = i1 + w2.len();
    lemma_split2(s, i2, w3, w4);
    lemma_parse_str_embed(s, i2, l.tag);
    let i3 = i2 + w3.len();
    lemma_parse_str_embed(s, i3, l.link_type);
    assert(LinkModel { base: l.base, target: l.target, tag: l.tag, link_type: l.link_type }
        =~= l);
}

proof fn lemma_parse_link_data_embed(s: Seq<char>, i: int, d: LinkDataModel)
    requires
        bounded_link_data(d),
        embedded(s, i, ser_link_data(d)),
    ensures
        parse_link_data(s, i) == Option::Some((d, i + ser_link_data(d).len())),
{
    lemma_split2(s, i, ser_link(d.link), ser_header(d.top_chain_header));
    lemma_parse_link_embed(s, i, d.link);
    lemma_parse_header_embed(s, i + ser_link(d.link).len(), d.top_chain_header);
    assert(LinkDataModel { link: d.link, top_chain_header: d.top_chain_header } =~= d);
}

proof fn lemma_parse_addr_seq_embed(s: Seq<char>, i: int, rs: Seq<Seq<char>>)
    requires
        forall|k: int| 0 <= k < rs.len() ==> fits(#[trigger] rs[k]),
        embedded(s, i, ser_addr_seq(rs)),
    ensures
        parse_addr_seq(s, i, rs.len() as int) == Option::Some((rs, i + ser_addr_seq(rs).len())),
    decreases rs.len(),
{
    if rs.len() == 0 {
        assert(rs =~= Seq::<Seq<char>>::empty());
    } else {
        lemma_split2(s, i, ser_str(rs[0]), ser_addr_seq(rs.drop_first()));
        lemma_parse_str_embed(s, i, rs[0]);
        let j = i + ser_str(rs[0]).len();
        assert(forall|k: int|
            0 <= k < rs.drop_first().len() ==> #[trigger] rs.drop_first()[k] == rs[k + 1]);
        lemma_parse_addr_seq_embed(s, j, rs.drop_first());
        assert(seq![rs[0]] + rs.drop_first() =~= rs);
    }
}

proof fn lemma_parse_removed_embed(s: Seq<char>, i: int, rs: Seq<Seq<char>>)
    requires
        rs.len() <= usize::MAX,
        forall|k: int| 0 <= k < rs.len() ==> fits(#[trigger] rs[k]),
        embedded(s, i, ser_removed(rs)),
    ensures
        parse_removed(s, i) == Option::Some((rs, i + ser_removed(rs).len())),
{
    lemma_split2(s, i, ser_len(rs.len() as int), ser_addr_seq(rs));
    lemma_parse_len_embed(s, i, rs.len() as int);
    lemma_parse_addr_seq_embed(s, i + ser_len(rs.len() as int).len(), rs);
}

/// The round-trip law: deserializing the canonical encoding of any
/// constructible aspect gives back exactly that aspect. Bounded means
/// only that every string and count in the model fits a machine word,
/// which holds of the model of every executable value.
#[verifier::rlimit(100)]
#[verifier::spinoff_prover]
pub proof fn lemma_round_trip(v: AspectModel)
    requires
        bounded_model(v),
    ensures
        spec_deserialize(ser_aspect(v)) == Option::Some(v),
{
    let s = ser_aspect(v);
    match v {
        AspectModel::Content { entry, header } => {
            let w1 = ser_entry(entry);
            let w2 = ser_header(header);
            assert(s.subrange(0, 1)[0] == s[0]);
            assert(s[0] == 'C');
            assert(s.subrange(1, s.len() as int) =~= w1 + w2);
            lemma_split2(s, 1, w1, w2);
            lemma_parse_entry_embed(s, 1, entry);
            lemma_parse_header_embed(s, 1 + w1.len() as int, header);
            assert(parse_aspect(s, 0) == Option::Some((v, s.len() as int)));
        },
        AspectModel::Header { header } => {
            let w = ser_header(header);
            assert(s[0] == 'H');
            assert(s.subrange(1, s.len() as int) =~= w);
            lemma_parse_header_embed(s, 1, header);
            assert(parse_aspect(s, 0) == Option::Some((v, s.len() as int)));
        },
        AspectModel::LinkAdd { link, header } => {
            let w1 = ser_link_data(link);
            let w2 = ser_header(header);
            assert(s[0] == 'A');
            assert(s.subrange(1, s.len() as int) =~= w1 + w2);
            lemma_split2(s, 1, w1, w2);
            lemma_parse_link_data_embed(s, 1, link);
            lemma_parse_header_embed(s, 1 + w1.len() as int, header);
            assert(parse_aspect(s, 0) == Option::Some((v, s.len() as int)));
        },
        AspectModel::LinkRemove { link, removed, header } => {
            let w1 = ser_link_data(link);
            let w2 = ser_removed(removed);
            let w3 = ser_header(header);
            assert(s[0] == 'R');
            assert(s.subrange(1, s.len() as int) =~= w1 + (w2 + w3));
            lemma_split2(s, 1, w1, w2 + w3);
            lemma_parse_link_data_embed(s, 1, link);
            lemma_split2(s, 1 + w1.len() as int, w2, w3);
            lemma_parse_removed_embed(s, 1 + w1.len() as int, removed);
            lemma_parse_header_embed(s, 1 + w1.len() as int + w2.len() as int, header);
            assert(parse_aspect(s, 0) == Option::Some((v, s.len() as int)));
        },
        AspectModel::Update { entry, header } => {
            let w1 = ser_entry(entry);
            let w2 = ser_header(header);
            assert(s[0] == 'U');
            assert(s.subrange(1, s.len() as int) =~= w1 + w2);
            lemma_split2(s, 1, w1, w2);
            lemma_parse_entry_embed(s, 1, entry);
            lemma_parse_header_embed(s, 1 + w1.len() as int, header);
            assert(parse_aspect(s, 0) == Option::Some((v, s.len() as int)));
        },
        AspectModel::Deletion { header } => {
            let w = ser_header(header);
            assert(s[0] == 'D');
            assert(s.subrange(1, s.len() as int) =~= w);
            lemma_parse_header_embed(s, 1, header);
            assert(parse_aspect(s, 0) == Option::Some((v, s.len() as int)));
        },
    }
}

proof fn lemma_digit_char_inverse(c: char)
    requires
        digit_val(c) >= 0,
    ensures
        digit_char(digit_val(c)) == c,
{
}

proof fn lemma_subrange_glue(s: Seq<char>, i: int, j: int, k: int)
    requires
        0 <= i <= j <= k <= s.len(),
    ensures
        s.subrange(i, j) + s.subrange(j, k) == s.subrange(i, k),
{
    assert(s.subrange(i, j) + s.subrange(j, k) =~= s.subrange(i, k));
}

proof fn lemma_parse_digits_sound(s: Seq<char>, i: int, a: int)
    requires
        0 <= i <= s.len(),
        1 <= a <= usize::MAX as int,
        parse_digits(s, i, a) is Some,
    ensures
        match parse_digits(s, i, a) {
            Option::Some((v, j)) => {
                &&& i <= j <= s.len()
                &&& 1 <= v <= usize::MAX as int
                &&& dec_digits(v) == dec_digits(a) + s.subrange(i, j)
            },
            Option::None => true,
        },
    decreases s.len() - i,
{
    if i < s.len() && digit_val(s[i]) >= 0 {
        let d = digit_val(s[i]);
        let a2 = a * 10 + d;
        assert(a2 <= usize::MAX as int);
        assert(a2 >= 10);
        lemma_parse_digits_sound(s, i + 1, a2);
        match parse_digits(s, i + 1, a2) {
            Option::Some((v, j)) => {
                assert(a2 / 10 == a && a2 % 10 == d);
                assert(dec_digits(a2) == dec_digits(a) + seq![digit_char(d)]);
                lemma_digit_char_inverse(s[i]);
                assert(seq![s[i]] =~= s.subrange(i, i + 1));
                assert((dec_digits(a) + seq![s[i]]) + s.subrange(i + 1, j) =~= dec_digits(a)
                    + (s.subrange(i, i + 1) + s.subrange(i + 1, j)));
                lemma_subrange_glue(s, i, i + 1, j);
            },
            Option::None => {},
        }
    } else {
        assert(s.subrange(i, i) =~= Seq::<char>::empty());
        assert(dec_digits(a) + s.subrange(i, i) =~= dec_digits(a));
    }
}

proof fn lemma_parse_len_sound(s: Seq<char>, i: int)
    requires
        0 <= i,
        parse_len(s, i) is Some,
    ensures
        match parse_len(s, i) {
            Option::Some((n, j)) => {
                &&& i < j <= s.len()
                &&& 0 <= n <= usize::MAX as int
                &&& ser_len(n) == s.subrange(i, j)
            },
            Option::None => true,
        },
{
    if s[i] == '0' {
        assert(ser_len(0) =~= s.subrange(i, i + 2));
    } else {
        let d0 = digit_val(s[i]);
        assert(d0 >= 1);
        match parse_digits(s, i, 0) {
            Option::Some((v, j0)) => {
                lemma_parse_digits_sound(s, i + 1, d0);
                assert(parse_digits(s, i, 0) == parse_digits(s, i + 1, d0));
                match parse_digits(s, i + 1, d0) {
                    Option::Some((v2, j2)) => {
                        lemma_digit_char_inverse(s[i]);
                        assert(dec_digits(d0) == seq![s[i]]);
                        assert(seq![s[i]] =~= s.subrange(i, i + 1));
                        assert(seq![s[i]] + s.subrange(i + 1, j0) =~= s.subrange(i, i + 1)
                            + s.subrange(i + 1, j0));
                        lemma_subrange_glue(s, i, i + 1, j0);
                        assert(dec_digits(v) == s.subrange(i, j0));
                        assert(seq![':'] =~= s.subrange(j0, j0 + 1));
                        assert(dec_digits(v) + seq![':'] =~= s.subrange(i, j0) + s.subrange(
                            j0,
                            j0 + 1,
                        ));
                        lemma_subrange_glue(s, i, j0, j0 + 1);
                    },
                    Option::None => {
                        assert(false);
                    },
                }
            },
            Option::None => {
                assert(false);
            },
        }
    }
}

proof fn lemma_parse_str_sound(s: Seq<char>, i: int)
    requires
        0 <= i,
        parse_str(s, i) is Some,
    ensures
        match parse_str(s, i) {
            Option::Some((x, j)) => {
                &&& i < j <= s.len()
                &&& fits(x)
                &&& ser_str(x) == s.subrange(i, j)
            },
            Option::None => true,
        },
{
    lemma_parse_len_sound(s, i);
    match parse_len(s, i) {
        Option::Some((n, j0)) => {
            let x = s.subrange(j0, j0 + n);
            assert(x.len() == n);
            assert(ser_str(x) =~= ser_len(n) + x);
            lemma_subrange_glue(s, i, j0, j0 + n);
        },
        Option::None => {
            assert(false);
        },
    }
}

proof fn lemma_parse_opt_sound(s: Seq<char>, i: int)
    requires
        0 <= i,
        parse_opt(s, i) is Some,
    ensures
        match parse_opt(s, i) {
            Option::Some((o, j)) => {
                &&& i < j <= s.len()
                &&& match o {
                    Option::Some(a) => fits(a),
                    Option::None => true,
                }
                &&& ser_opt(o) == s.subrange(i, j)
            },
            Option::None => true,
        },
{
    if s[i] == '-' {
        assert(seq!['-'] =~= s.subrange(i, i + 1));
    } else {
        lemma_parse_str_sound(s, i + 1);
        match parse_str(s, i + 1) {
            Option::Some((x, j)) => {
                assert(seq!['+'] =~= s.subrange(i, i + 1));
                assert(seq!['+'] + ser_str(x) =~= s.subrange(i, i + 1) + s.subrange(i + 1, j));
                lemma_subrange_glue(s, i, i + 1, j);
            },
            Option::None => {
                assert(false);
            },
        }
    }
}

proof fn lemma_parse_header_sound(s: Seq<char>, i: int)
    requires
        0 <= i,
        parse_header(s, i) is Some,
    ensures
        match parse_header(s, i) {
            Option::Some((h, j)) => {
                &&& i < j <= s.len()
                &&& bounded_header(h)
                &&& ser_header(h) == s.subrange(i, j)
            },
            Option::None => true,
        },
{
    lemma_parse_str_sound(s, i);
    let (entry_type, i1) = parse_str(s, i)->Some_0;
    lemma_parse_str_sound(s, i1);
    let (entry_address, i2) = parse_str(s, i1)->Some_0;
    lemma_parse_opt_sound(s, i2);
    let (link_update_delete, i3) = parse_opt(s, i2)->Some_0;
    lemma_parse_str_sound(s, i3);
    let (address, i4) = parse_str(s, i3)->Some_0;
    lemma_subrange_glue(s, i, i1, i2);
    lemma_subrange_glue(s, i, i2, i3);
    lemma_subrange_glue(s, i, i3, i4);
    assert(ser_str(entry_type) + ser_str(entry_address) + ser_opt(link_update_delete) + ser_str(
        address,
    ) =~= s.subrange(i, i4));
}

proof fn lemma_parse_entry_sound(s: Seq<char>, i: int)
    requires
        0 <= i,
        parse_entry(s, i) is Some,
    ensures
        match parse_entry(s, i) {
            Option::Some((e, j)) => {
                &&& i < j <= s.len()
                &&& bounded_entry(e)
                &&& ser_entry(e) == s.subrange(i, j)
            },
            Option::None => true,
        },
{
    lemma_parse_str_sound(s, i);
    let (content, i1) = parse_str(s, i)->Some_0;
    lemma_parse_str_sound(s, i1);
    let (address, i2) = parse_str(s, i1)->Some_0;
    lemma_subrange_glue(s, i, i1, i2);
    assert(ser_str(content) + ser_str(address) =~= s.subrange(i, i2));
}

proof fn lemma_parse_link_sound(s: Seq<char>, i: int)
    requires
        0 <= i,
        parse_link(s, i) is Some,
    ensures
        match parse_link(s, i) {
            Option::Some((l, j)) => {
                &&& i < j <= s.len()
                &&& bounded_link(l)
                &&& ser_link(l) == s.subrange(i, j)
            },
            Option::None => true,
        },
{
    lemma_parse_str_sound(s, i);
    let (base, i1) = parse_str(s, i)->Some_0;
    lemma_parse_str_sound(s, i1);
    let (target, i2) = parse_str(s, i1)->Some_0;
    lemma_parse_str_sound(s, i2);
    let (tag, i3) = parse_str(s, i2)->Some_0;
    lemma_parse_str_sound(s, i3);
    let (link_type, i4) = parse_str(s, i3)->Some_0;
    lemma_subrange_glue(s, i, i1, i2);
    lemma_subrange_glue(s, i, i2, i3);
    lemma_subrange_glue(s, i, i3, i4);
    assert(ser_str(base) + ser_str(target) + ser_str(tag) + ser_str(link_type) =~= s.subrange(
        i,
        i4,
    ));
}

proof fn lemma_parse_link_data_sound(s: Seq<char>, i: int)
    requires
        0 <= i,
        parse_link_data(s, i) is Some,
    ensures
        match parse_link_data(s, i) {
            Option::Some((d, j)) => {
                &&& i < j <= s.len()
                &&& bounded_link_data(d)
                &&& ser_link_data(d) == s.subrange(i, j)
            },
            Option::None => true,
        },
{
    lemma_parse_link_sound(s, i);
    let (link, i1) = parse_link(s, i)->Some_0;
    lemma_parse_header_sound(s, i1);
    let (top, i2) = parse_header(s, i1)->Some_0;
    lemma_subrange_glue(s, i, i1, i2);
    assert(ser_link(link) + ser_header(top) =~= s.subrange(i, i2));
}

proof fn lemma_parse_addr_seq_sound(s: Seq<char>, i: int, k: int)
    requires
        0 <= i <= s.len(),
        0 <= k,
        parse_addr_seq(s, i, k) is Some,
    ensures
        match parse_addr_seq(s, i, k) {
            Option::Some((xs, j)) => {
                &&& i <= j <= s.len()
                &&& xs.len() == k
                &&& forall|m: int| 0 <= m < xs.len() ==> fits(#[trigger] xs[m])
                &&& ser_addr_seq(xs) == s.subrange(i, j)
            },
            Option::None => true,
        },
    decreases k,
{
    if k <= 0 {
        assert(s.subrange(i, i) =~= Seq::<char>::empty());
    } else {
        lemma_parse_str_sound(s, i);
        let (x, j0) = parse_str(s, i)->Some_0;
        lemma_parse_addr_seq_sound(s, j0, k - 1);
        let (rest, j) = parse_addr_seq(s, j0, k - 1)->Some_0;
        let xs = seq![x] + rest;
        assert(xs[0] == x);
        assert(xs.drop_first() =~= rest);
        lemma_subrange_glue(s, i, j0, j);
        assert(ser_addr_seq(xs) == ser_str(x) + ser_addr_seq(rest));
        assert(ser_str(x) + ser_addr_seq(rest) =~= s.subrange(i, j));
        assert(forall|m: int|
            0 <= m < xs.len() ==> fits(#[trigger] xs[m]) == if m == 0 {
                fits(x)
            } else {
                fits(rest[m - 1])
            });
    }
}

proof fn lemma_parse_removed_sound(s: Seq<char>, i: int)
    requires
        0 <= i,
        parse_removed(s, i) is Some,
    ensures
        match parse_removed(s, i) {
            Option::Some((xs, j)) => {
                &&& i < j <= s.len()
                &&& xs.len() <= usize::MAX
                &&& forall|m: int| 0 <= m < xs.len() ==> fits(#[trigger] xs[m])
                &&& ser_removed(xs) == s.subrange(i, j)
            },
            Option::None => true,
        },
{
    lemma_parse_len_sound(s, i);
    let (n, j0) = parse_len(s, i)->Some_0;
    lemma_parse_addr_seq_sound(s, j0, n);
    let (xs, j) = parse_addr_seq(s, j0, n)->Some_0;
    lemma_subrange_glue(s, i, j0, j);
    assert(ser_len(xs.len() as int) + ser_addr_seq(xs) =~= s.subrange(i, j));
}

#[verifier::rlimit(100)]
#[verifier::spinoff_prover]
proof fn lemma_parse_aspect_sound(s: Seq<char>, i: int)
    requires
        0 <= i,
        parse_aspect(s, i) is Some,
    ensures
        match parse_aspect(s, i) {
            Option::Some((v, j)) => {
                &&& i < j <= s.len()
                &&& bounded_model(v)
                &&& ser_aspect(v) == s.subrange(i, j)
            },
            Option::None => true,
        },
{
    assert(seq![s[i]] =~= s.subrange(i, i + 1));
    if s[i] == 'C' || s[i] == 'U' {
        lemma_parse_entry_sound(s, i + 1);
        let (entry, j1) = parse_entry(s, i + 1)->Some_0;
        lemma_parse_header_sound(s, j1);
        let (header, j2) = parse_header(s, j1)->Some_0;
        lemma_subrange_glue(s, i, i + 1, j1);
        lemma_subrange_glue(s, i, j1, j2);
        assert(seq![s[i]] + ser_entry(entry) + ser_header(header) =~= s.subrange(i, j2));
    } else if s[i] == 'H' || s[i] == 'D' {
        lemma_parse_header_sound(s, i + 1);
        let (header, j1) = parse_header(s, i + 1)->Some_0;
        lemma_subrange_glue(s, i, i + 1, j1);
        assert(seq![s[i]] + ser_header(header) =~= s.subrange(i, j1));
    } else if s[i] == 'A' {
        lemma_parse_link_data_sound(s, i + 1);
        let (link, j1) = parse_link_data(s, i + 1)->Some_0;
        lemma_parse_header_sound(s, j1);
        let (header, j2) = parse_header(s, j1)->Some_0;
        lemma_subrange_glue(s, i, i + 1, j1);
        lemma_subrange_glue(s, i, j1, j2);
        assert(seq![s[i]] + ser_link_data(link) + ser_header(header) =~= s.subrange(i, j2));
    } else {
        lemma_parse_link_data_sound(s, i + 1);
        let (link, j1) = parse_link_data(s, i + 1)->Some_0;
        lemma_parse_removed_sound(s, j1);
        let (removed, j2) = parse_removed(s, j1)->Some_0;
        lemma_parse_header_sound(s, j2);
        let (header, j3) = parse_header(s, j2)->Some_0;
        lemma_subrange_glue(s, i, i + 1, j1);
        lemma_subrange_glue(s, i, j1, j2);
        lemma_subrange_glue(s, i, j2, j3);
        assert(seq![s[i]] + ser_link_data(link) + ser_removed(removed) + ser_header(header)
            =~= s.subrange(i, j3));
    }
}

/// The converse of the round-trip law: `deserialize` accepts nothing but
/// canonical encodings. Whatever it accepts, re-serializing the result
/// reproduces the input exactly, so every accepted input is the encoding
/// of exactly one aspect.
pub proof fn lemma_deserialize_canonical(s: Seq<char>)
    requires
        spec_deserialize(s) is Some,
    ensures
        match spec_deserialize(s) {
            Option::Some(v) => bounded_model(v) && ser_aspect(v) == s,
            Option::None => true,
        },
{
    lemma_parse_aspect_sound(s, 0);
    assert(s.subrange(0, s.len() as int) =~= s);
}

/// Serialization is deterministic: it is a pure function of the aspect's
/// value, so equal aspects serialize to identical encodings.
pub proof fn lemma_serialize_deterministic(a: AspectModel, b: AspectModel)
    requires
        a == b,
    ensures
        ser_aspect(a) == ser_aspect(b),
{
}

} // verus!

