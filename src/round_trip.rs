//! How parsing and formatting undo each other.
use vstd::prelude::*;

use crate::naive::{
    arn_prefix, field_text, format_spec, optional_field, parse_spec, split_parts, ArnView,
    ParseNaiveArnError,
};
use crate::split::{colon_free, join_colon, lemma_split_once_parts, lemma_split_once_unique, split_once};

verus! {

/// A split into more than one part takes off the text before the first `:`.
proof fn lemma_split_parts_step(s: Seq<char>, n: nat)
    requires
        n > 1,
        split_parts(s, n).len() > 1,
    ensures
        split_once(s) is Some,
        split_parts(s, n) == seq![split_once(s)->Some_0.0] + split_parts(
            split_once(s)->Some_0.1,
            (n - 1) as nat,
        ),
        s == join_colon(split_once(s)->Some_0.0, split_once(s)->Some_0.1),
        colon_free(split_once(s)->Some_0.0),
{
    lemma_split_once_parts(s);
}

/// The fields that an ARN can have: the required ones are non-empty, no field but
/// the resource holds a `:`, and an optional field that is present is non-empty.
pub open spec fn well_formed(a: ArnView) -> bool {
    &&& a.partition.len() > 0 && colon_free(a.partition)
    &&& a.service.len() > 0 && colon_free(a.service)
    &&& a.region matches Some(r) ==> r.len() > 0 && colon_free(r)
    &&& a.account_id matches Some(r) ==> r.len() > 0 && colon_free(r)
    &&& a.resource.len() > 0
}

/// A text that parses is the canonical text of the fields it parses to, also where
/// its region or account ID is empty.
pub proof fn lemma_format_of_parse(s: Seq<char>)
    requires
        parse_spec(s) is Ok,
    ensures
        format_spec(parse_spec(s)->Ok_0) == s,
        well_formed(parse_spec(s)->Ok_0),
{
    let a = parse_spec(s)->Ok_0;
    let t0 = s;
    lemma_split_parts_step(t0, 6);
    let (p0, t1) = split_once(t0)->Some_0;
    lemma_split_parts_step(t1, 5);
    let (p1, t2) = split_once(t1)->Some_0;
    lemma_split_parts_step(t2, 4);
    let (p2, t3) = split_once(t2)->Some_0;
    lemma_split_parts_step(t3, 3);
    let (p3, t4) = split_once(t3)->Some_0;
    lemma_split_parts_step(t4, 2);
    let (p4, p5) = split_once(t4)->Some_0;
    assert(split_parts(p5, 1) == seq![p5]);
    let parts = split_parts(t0, 6);
    assert(parts[1] == p1 && parts[2] == p2 && parts[3] == p3 && parts[4] == p4 && parts[5] == p5);
    assert(field_text(optional_field(p3)) == p3);
    assert(field_text(optional_field(p4)) == p4);
}

/// The canonical text of well-formed fields splits back into the prefix and those fields.
proof fn lemma_split_parts_of_format(a: ArnView)
    requires
        well_formed(a),
    ensures
        split_parts(format_spec(a), 6) == seq![
            arn_prefix(),
            a.partition,
            a.service,
            field_text(a.region),
            field_text(a.account_id),
            a.resource,
        ],
{
    let region = field_text(a.region);
    let account = field_text(a.account_id);
    let t4 = join_colon(account, a.resource);
    let t3 = join_colon(region, t4);
    let t2 = join_colon(a.service, t3);
    let t1 = join_colon(a.partition, t2);
    let t0 = join_colon(arn_prefix(), t1);
    assert(colon_free(region));
    assert(colon_free(account));
    assert(colon_free(arn_prefix()));
    lemma_split_once_unique(t4, account, a.resource);
    lemma_split_once_unique(t3, region, t4);
    lemma_split_once_unique(t2, a.service, t3);
    lemma_split_once_unique(t1, a.partition, t2);
    lemma_split_once_unique(t0, arn_prefix(), t1);
    assert(split_parts(a.resource, 1) == seq![a.resource]);
    assert(split_parts(t4, 2) =~= seq![account, a.resource]);
    assert(split_parts(t3, 3) =~= seq![region, account, a.resource]);
    assert(split_parts(t2, 4) =~= seq![a.service, region, account, a.resource]);
    assert(split_parts(t1, 5) =~= seq![a.partition, a.service, region, account, a.resource]);
    assert(split_parts(t0, 6) =~= seq![
        arn_prefix(),
        a.partition,
        a.service,
        region,
        account,
        a.resource,
    ]);
}

/// Parsing the canonical text of well-formed fields gives those fields back.
pub proof fn lemma_parse_of_format(a: ArnView)
    requires
        well_formed(a),
    ensures
        parse_spec(format_spec(a)) == Ok::<ArnView, ParseNaiveArnError>(a),
{
    lemma_split_parts_of_format(a);
    assert(optional_field(field_text(a.region)) == a.region);
    assert(optional_field(field_text(a.account_id)) == a.account_id);
}

/// Parsing the canonical text of what a text parsed to gives the same fields again.
pub proof fn lemma_reparse(s: Seq<char>)
    requires
        parse_spec(s) is Ok,
    ensures
        parse_spec(format_spec(parse_spec(s)->Ok_0)) == parse_spec(s),
{
    lemma_format_of_parse(s);
    lemma_parse_of_format(parse_spec(s)->Ok_0);
}

} // verus!
