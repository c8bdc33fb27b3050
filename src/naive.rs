//! `arn:partition:service:region:account-id:resource` formatted ARN
use vstd::prelude::*;
use vstd::string::*;

use crate::split::{join_colon, split_at_colon, split_once};
use crate::utf8_facts::{lemma_encode_ascii_char, lemma_encode_concat, lemma_encode_injective};

verus! {

/// `arn:partition:service:region:account-id:resource` formatted ARN, whose fields
/// borrow from the text it was parsed from.
#[derive(Debug, PartialEq)]
pub struct NaiveArn<'a> {
    /// The partition that the resource is in, such as "aws" or "aws-cn".
    pub partition: &'a str,
    /// The service namespace that identifies the product, such as "s3" or "ec2".
    pub service: &'a str,
    /// The region the resource resides in; absent where the ARN leaves it empty.
    pub region: Option<&'a str>,
    /// The ID of the account that owns the resource; absent where the ARN leaves it empty.
    pub account_id: Option<&'a str>,
    /// The resource itself, kept whole: it may hold colons, slashes, spaces and wildcards.
    pub resource: &'a str,
}

/// The five fields of an ARN, as text.
pub struct ArnView {
    pub partition: Seq<char>,
    pub service: Seq<char>,
    pub region: Option<Seq<char>>,
    pub account_id: Option<Seq<char>>,
    pub resource: Seq<char>,
}

/// Why a text is not a well-formed ARN.
#[derive(Debug, PartialEq, Eq, Structural, Clone, Copy)]
pub enum ParseNaiveArnError {
    /// The text ends before the resource field.
    NotEnoughElements,
    /// The text does not start with the field `arn`.
    MissingPrefix,
    /// The partition field is empty.
    MissingPartition,
    /// The service field is empty.
    MissingService,
    /// The resource field is empty.
    MissingResource,
}

/// The text of an optional field, where it is present.
pub open spec fn opt_view(o: Option<&str>) -> Option<Seq<char>> {
    match o {
        Some(t) => Some(t@),
        None => None,
    }
}

impl<'a> View for NaiveArn<'a> {
    type V = ArnView;

    open spec fn view(&self) -> ArnView {
        ArnView {
            partition: self.partition@,
            service: self.service@,
            region: opt_view(self.region),
            account_id: opt_view(self.account_id),
            resource: self.resource@,
        }
    }
}

/// The literal that every ARN starts with.
pub open spec fn arn_prefix() -> Seq<char> {
    seq!['a', 'r', 'n']
}

/// The parts of `s` between colons, at most `n` of them: the last part keeps
/// whatever colons follow it.
pub open spec fn split_parts(s: Seq<char>, n: nat) -> Seq<Seq<char>>
    decreases n,
{
    if n <= 1 {
        seq![s]
    } else {
        match split_once(s) {
            Some((head, tail)) => seq![head] + split_parts(tail, (n - 1) as nat),
            None => seq![s],
        }
    }
}

/// An optional field: absent where its text is empty.
pub open spec fn optional_field(s: Seq<char>) -> Option<Seq<char>> {
    if s.len() == 0 {
        None
    } else {
        Some(s)
    }
}

/// What parsing `s` gives: the fields of an ARN, or the first thing wrong with it.
pub open spec fn parse_spec(s: Seq<char>) -> Result<ArnView, ParseNaiveArnError> {
    let p = split_parts(s, 6);
    if p[0] != arn_prefix() {
        Err(ParseNaiveArnError::MissingPrefix)
    } else if p.len() < 2 {
        Err(ParseNaiveArnError::NotEnoughElements)
    } else if p[1].len() == 0 {
        Err(ParseNaiveArnError::MissingPartition)
    } else if p.len() < 3 {
        Err(ParseNaiveArnError::NotEnoughElements)
    } else if p[2].len() == 0 {
        Err(ParseNaiveArnError::MissingService)
    } else if p.len() < 6 {
        Err(ParseNaiveArnError::NotEnoughElements)
    } else if p[5].len() == 0 {
        Err(ParseNaiveArnError::MissingResource)
    } else {
        Ok(
            ArnView {
                partition: p[1],
                service: p[2],
                region: optional_field(p[3]),
                account_id: optional_field(p[4]),
                resource: p[5],
            },
        )
    }
}

/// The text of an optional field: empty where it is absent.
pub open spec fn field_text(o: Option<Seq<char>>) -> Seq<char> {
    match o {
        Some(t) => t,
        None => Seq::empty(),
    }
}

/// The canonical text of an ARN with the fields of `a`.
pub open spec fn format_spec(a: ArnView) -> Seq<char> {
    join_colon(
        arn_prefix(),
        join_colon(
            a.partition,
            join_colon(
                a.service,
                join_colon(field_text(a.region), join_colon(field_text(a.account_id), a.resource)),
            ),
        ),
    )
}

/// The message that describes `e`.
pub open spec fn error_message(e: ParseNaiveArnError) -> Seq<char> {
    match e {
        ParseNaiveArnError::NotEnoughElements => "Not enough elements"@,
        ParseNaiveArnError::MissingPrefix => "Missing 'arn:' prefix"@,
        ParseNaiveArnError::MissingPartition => "Missing partition element"@,
        ParseNaiveArnError::MissingService => "Missing service element"@,
        ParseNaiveArnError::MissingResource => "Missing resource element"@,
    }
}

/// Whether `p` is exactly the text `arn`.
fn is_arn_prefix(p: &str) -> (r: bool)
    ensures
        r == (p@ == arn_prefix()),
{
    let b = p.as_bytes();
    let ghost expected: Seq<u8> = seq![0x61u8, 0x72u8, 0x6eu8];
    proof {
        lemma_encode_ascii_char('a');
        lemma_encode_ascii_char('r');
        lemma_encode_ascii_char('n');
        assert(arn_prefix() =~= seq!['a'] + (seq!['r'] + seq!['n']));
        lemma_encode_concat(seq!['r'], seq!['n']);
        lemma_encode_concat(seq!['a'], seq!['r'] + seq!['n']);
        assert(vstd::utf8::encode_utf8(arn_prefix()) =~= expected);
    }
    let r = b.len() == 3 && b[0] == 0x61 && b[1] == 0x72 && b[2] == 0x6e;
    proof {
        if r {
            assert(p.spec_bytes() =~= expected);
            lemma_encode_injective(p@, arn_prefix());
        } else if p@ == arn_prefix() {
            assert(b@ =~= expected);
        }
    }
    r
}

impl<'a> NaiveArn<'a> {
    /// Parses `s` into its fields, or says what is wrong with it.
    pub fn parse(s: &'a str) -> (r: Result<Self, ParseNaiveArnError>)
        ensures
            match r {
                Ok(arn) => parse_spec(s@) == Ok::<ArnView, ParseNaiveArnError>(arn@),
                Err(e) => parse_spec(s@) == Err::<ArnView, ParseNaiveArnError>(e),
            },
    {
        let ghost parts = split_parts(s@, 6);
        let (p0, r0) = split_at_colon(s);
        if !is_arn_prefix(p0) {
            return Err(ParseNaiveArnError::MissingPrefix);
        }
        let r0 = match r0 {
            None => return Err(ParseNaiveArnError::NotEnoughElements),
            Some(t) => t,
        };
        assert(parts == seq![p0@] + split_parts(r0@, 5));
        let (partition, r1) = split_at_colon(r0);
        if partition.is_empty() {
            return Err(ParseNaiveArnError::MissingPartition);
        }
        let r1 = match r1 {
            None => return Err(ParseNaiveArnError::NotEnoughElements),
            Some(t) => t,
        };
        assert(split_parts(r0@, 5) == seq![partition@] + split_parts(r1@, 4));
        let (service, r2) = split_at_colon(r1);
        if service.is_empty() {
            return Err(ParseNaiveArnError::MissingService);
        }
        let r2 = match r2 {
            None => return Err(ParseNaiveArnError::NotEnoughElements),
            Some(t) => t,
        };
        assert(split_parts(r1@, 4) == seq![service@] + split_parts(r2@, 3));
        let (region, r3) = split_at_colon(r2);
        let r3 = match r3 {
            None => return Err(ParseNaiveArnError::NotEnoughElements),
            Some(t) => t,
        };
        assert(split_parts(r2@, 3) == seq![region@] + split_parts(r3@, 2));
        let (account_id, r4) = split_at_colon(r3);
        let resource = match r4 {
            None => return Err(ParseNaiveArnError::NotEnoughElements),
            Some(t) => t,
        };
        assert(split_parts(r3@, 2) == seq![account_id@] + split_parts(resource@, 1));
        if resource.is_empty() {
            return Err(ParseNaiveArnError::MissingResource);
        }
        let region = if region.is_empty() {
            None
        } else {
            Some(region)
        };
        let account_id = if account_id.is_empty() {
            None
        } else {
            Some(account_id)
        };
        Ok(NaiveArn { partition, service, region, account_id, resource })
    }
    /// The canonical text of this ARN; an absent region or account ID is written empty.
    pub fn to_string(&self) -> (r: String)
        ensures
            r@ == format_spec(self@),
    {
        let mut r = String::new();
        r.append("arn:");
        r.append(self.partition);
        r.append(":");
        r.append(self.service);
        r.append(":");
        match self.region {
            Some(region) => r.append(region),
            None => {},
        }
        r.append(":");
        match self.account_id {
            Some(account_id) => r.append(account_id),
            None => {},
        }
        r.append(":");
        r.append(self.resource);
        proof {
            reveal_strlit("arn:");
            reveal_strlit(":");
            reveal(join_colon);
            assert(r@ =~= format_spec(self@));
        }
        r
    }
}

impl ParseNaiveArnError {
    /// A message that describes this error.
    pub fn to_string(&self) -> (r: String)
        ensures
            r@ == error_message(*self),
    {
        match self {
            ParseNaiveArnError::NotEnoughElements => "Not enough elements".to_owned(),
            ParseNaiveArnError::MissingPrefix => "Missing 'arn:' prefix".to_owned(),
            ParseNaiveArnError::MissingPartition => "Missing partition element".to_owned(),
            ParseNaiveArnError::MissingService => "Missing service element".to_owned(),
            ParseNaiveArnError::MissingResource => "Missing resource element".to_owned(),
        }
    }
}

} // verus!
