//! GLM family/link vocabulary: names, parsing, canonical links and the
//! family/link compatibility rule.

use vstd::prelude::*;
use crate::text::str_is;

verus! {

/// Response distribution of a GLM.
#[derive(Debug, Clone, Copy, PartialEq, Eq, Structural)]
pub enum GlmFamily {
    Gaussian,
    Binomial,
    Poisson,
    Gamma,
    InverseGaussian,
}

/// Link function of a GLM.
#[derive(Debug, Clone, Copy, PartialEq, Eq, Structural)]
pub enum GlmLink {
    Identity,
    Log,
    Logit,
    Probit,
    Inverse,
    InverseSquared,
    Sqrt,
}

pub open spec fn spec_canonical_link(f: GlmFamily) -> GlmLink {
    match f {
        GlmFamily::Gaussian => GlmLink::Identity,
        GlmFamily::Binomial => GlmLink::Logit,
        GlmFamily::Poisson => GlmLink::Log,
        GlmFamily::Gamma => GlmLink::Inverse,
        GlmFamily::InverseGaussian => GlmLink::InverseSquared,
    }
}

/// The canonical link of a family: Gaussian↔identity, binomial↔logit,
/// Poisson↔log, gamma↔inverse, inverse Gaussian↔inverse squared.
pub fn canonical_link(family: GlmFamily) -> (r: GlmLink)
    ensures
        r == spec_canonical_link(family),
{
    match family {
        GlmFamily::Gaussian => GlmLink::Identity,
        GlmFamily::Binomial => GlmLink::Logit,
        GlmFamily::Poisson => GlmLink::Log,
        GlmFamily::Gamma => GlmLink::Inverse,
        GlmFamily::InverseGaussian => GlmLink::InverseSquared,
    }
}

pub open spec fn spec_family_name(f: GlmFamily) -> Seq<char> {
    match f {
        GlmFamily::Gaussian => "gaussian"@,
        GlmFamily::Binomial => "binomial"@,
        GlmFamily::Poisson => "poisson"@,
        GlmFamily::Gamma => "gamma"@,
        GlmFamily::InverseGaussian => "inverse_gaussian"@,
    }
}

/// The wire name of a family.
pub fn family_name(family: GlmFamily) -> (r: &'static str)
    ensures
        r@ == spec_family_name(family),
{
    match family {
        GlmFamily::Gaussian => "gaussian",
        GlmFamily::Binomial => "binomial",
        GlmFamily::Poisson => "poisson",
        GlmFamily::Gamma => "gamma",
        GlmFamily::InverseGaussian => "inverse_gaussian",
    }
}

pub open spec fn spec_link_name(l: GlmLink) -> Seq<char> {
    match l {
        GlmLink::Identity => "identity"@,
        GlmLink::Log => "log"@,
        GlmLink::Logit => "logit"@,
        GlmLink::Probit => "probit"@,
        GlmLink::Inverse => "inverse"@,
        GlmLink::InverseSquared => "inverse_squared"@,
        GlmLink::Sqrt => "sqrt"@,
    }
}

/// The wire name of a link.
pub fn link_name(link: GlmLink) -> (r: &'static str)
    ensures
        r@ == spec_link_name(link),
{
    match link {
        GlmLink::Identity => "identity",
        GlmLink::Log => "log",
        GlmLink::Logit => "logit",
        GlmLink::Probit => "probit",
        GlmLink::Inverse => "inverse",
        GlmLink::InverseSquared => "inverse_squared",
        GlmLink::Sqrt => "sqrt",
    }
}

pub open spec fn spec_valid_links(f: GlmFamily) -> Seq<GlmLink> {
    match f {
        GlmFamily::Gaussian => seq![GlmLink::Identity, GlmLink::Log, GlmLink::Inverse],
        GlmFamily::Binomial => seq![GlmLink::Logit, GlmLink::Probit, GlmLink::Log],
        GlmFamily::Poisson => seq![GlmLink::Log, GlmLink::Identity, GlmLink::Sqrt],
        GlmFamily::Gamma => seq![GlmLink::Inverse, GlmLink::Identity, GlmLink::Log],
        GlmFamily::InverseGaussian => seq![GlmLink::InverseSquared, GlmLink::Identity, GlmLink::Log],
    }
}

/// The links a family accepts, canonical link first.
pub fn valid_links_for(family: GlmFamily) -> (r: Vec<GlmLink>)
    ensures
        r@ == spec_valid_links(family),
{
    let mut v: Vec<GlmLink> = Vec::new();
    match family {
        GlmFamily::Gaussian => { v.push(GlmLink::Identity); v.push(GlmLink::Log); v.push(GlmLink::Inverse); },
        GlmFamily::Binomial => { v.push(GlmLink::Logit); v.push(GlmLink::Probit); v.push(GlmLink::Log); },
        GlmFamily::Poisson => { v.push(GlmLink::Log); v.push(GlmLink::Identity); v.push(GlmLink::Sqrt); },
        GlmFamily::Gamma => { v.push(GlmLink::Inverse); v.push(GlmLink::Identity); v.push(GlmLink::Log); },
        GlmFamily::InverseGaussian => { v.push(GlmLink::InverseSquared); v.push(GlmLink::Identity); v.push(GlmLink::Log); },
    }
    assert(v@ =~= spec_valid_links(family));
    v
}

/// A family/link pair that the model does not fit.
#[derive(Debug, Clone, Copy, PartialEq, Eq, Structural)]
pub struct IncompatibleLink {
    pub family: GlmFamily,
    pub link: GlmLink,
}

impl IncompatibleLink {
    /// The error text: the family, the link and the family's valid links.
    pub fn message(&self) -> (r: String)
        ensures
            r@ == "Glm: family '"@ + spec_family_name(self.family) + "' incompatible with link '"@
                + spec_link_name(self.link) + "'; valid links: ["@ + quoted_list(spec_valid_links(self.family)) + "]"@,
    {
        let mut s = String::from_str("Glm: family '");
        s.append(family_name(self.family));
        s.append("' incompatible with link '");
        s.append(link_name(self.link));
        s.append("'; valid links: [");
        let links = valid_links_for(self.family);
        let mut i: usize = 0;
        let ghost head = s@;
        while i < links.len()
            invariant
                0 <= i <= links.len(),
                links@ == spec_valid_links(self.family),
                s@ == head + quoted_list(links@.take(i as int)),
            decreases links.len() - i,
        {
            let ghost before = s@;
            if i > 0 {
                s.append(", ");
            }
            s.append("'");
            s.append(link_name(links[i]));
            s.append("'");
            proof {
                assert(links@.take(i + 1).drop_last() =~= links@.take(i as int));
                assert(links@.take(i + 1).last() == links@[i as int]);
            }
            i = i + 1;
        }
        assert(links@.take(links.len() as int) =~= links@);
        s.append("]");
        s
    }
}

/// `'a', 'b', ...`: the quoted link names joined by commas.
pub open spec fn quoted_list(ls: Seq<GlmLink>) -> Seq<char>
    decreases ls.len(),
{
    if ls.len() == 0 {
        Seq::empty()
    } else if ls.len() == 1 {
        "'"@ + spec_link_name(ls[0]) + "'"@
    } else {
        quoted_list(ls.drop_last()) + ", "@ + "'"@ + spec_link_name(ls.last()) + "'"@
    }
}

/// Accept `link` for `family` exactly when it is one of the family's valid
/// links.
pub fn validate_pair(family: GlmFamily, link: GlmLink) -> (r: Result<(), IncompatibleLink>)
    ensures
        r is Ok <==> spec_valid_links(family).contains(link),
        r matches Err(e) ==> e == (IncompatibleLink { family, link }),
{
    let valid = valid_links_for(family);
    let mut i: usize = 0;
    while i < valid.len()
        invariant
            valid@ == spec_valid_links(family),
            0 <= i <= valid.len(),
            forall|j: int| 0 <= j < i ==> valid@[j] != link,
        decreases valid.len() - i,
    {
        if valid[i] == link {
            return Ok(());
        }
        i = i + 1;
    }
    Err(IncompatibleLink { family, link })
}

/// A name that is not a family or not a link.
#[derive(Debug, Clone, PartialEq, Eq)]
pub enum GlmParseError {
    UnknownFamily(String),
    UnknownLink(String),
}

pub open spec fn spec_parse_family(s: Seq<char>) -> Option<GlmFamily> {
    if s == "gaussian"@ { Some(GlmFamily::Gaussian) }
    else if s == "binomial"@ { Some(GlmFamily::Binomial) }
    else if s == "poisson"@ { Some(GlmFamily::Poisson) }
    else if s == "gamma"@ { Some(GlmFamily::Gamma) }
    else if s == "inverse_gaussian"@ { Some(GlmFamily::InverseGaussian) }
    else { None }
}

/// The family named `s`.
pub fn parse_family(s: &str) -> (r: Result<GlmFamily, GlmParseError>)
    ensures
        match r {
            Ok(f) => spec_parse_family(s@) == Some(f),
            Err(e) => spec_parse_family(s@) is None && (e matches GlmParseError::UnknownFamily(n) && n@ == s@),
        },
{
    if str_is(s, "gaussian") { Ok(GlmFamily::Gaussian) }
    else if str_is(s, "binomial") { Ok(GlmFamily::Binomial) }
    else if str_is(s, "poisson") { Ok(GlmFamily::Poisson) }
    else if str_is(s, "gamma") { Ok(GlmFamily::Gamma) }
    else if str_is(s, "inverse_gaussian") { Ok(GlmFamily::InverseGaussian) }
    else { Err(GlmParseError::UnknownFamily(String::from_str(s))) }
}

pub open spec fn spec_parse_link(s: Seq<char>) -> Option<GlmLink> {
    if s == "identity"@ { Some(GlmLink::Identity) }
    else if s == "log"@ { Some(GlmLink::Log) }
    else if s == "logit"@ { Some(GlmLink::Logit) }
    else if s == "probit"@ { Some(GlmLink::Probit) }
    else if s == "inverse"@ { Some(GlmLink::Inverse) }
    else if s == "inverse_squared"@ { Some(GlmLink::InverseSquared) }
    else if s == "sqrt"@ { Some(GlmLink::Sqrt) }
    else { None }
}

/// The link named `s`.
pub fn parse_link(s: &str) -> (r: Result<GlmLink, GlmParseError>)
    ensures
        match r {
            Ok(l) => spec_parse_link(s@) == Some(l),
            Err(e) => spec_parse_link(s@) is None && (e matches GlmParseError::UnknownLink(n) && n@ == s@),
        },
{
    if str_is(s, "identity") { Ok(GlmLink::Identity) }
    else if str_is(s, "log") { Ok(GlmLink::Log) }
    else if str_is(s, "logit") { Ok(GlmLink::Logit) }
    else if str_is(s, "probit") { Ok(GlmLink::Probit) }
    else if str_is(s, "inverse") { Ok(GlmLink::Inverse) }
    else if str_is(s, "inverse_squared") { Ok(GlmLink::InverseSquared) }
    else if str_is(s, "sqrt") { Ok(GlmLink::Sqrt) }
    else { Err(GlmParseError::UnknownLink(String::from_str(s))) }
}

/// Parsing a family's name gives the family back.
pub proof fn lemma_family_name_round_trip(f: GlmFamily)
    ensures
        spec_parse_family(spec_family_name(f)) == Some(f),
{
    reveal_strlit("gaussian");
    reveal_strlit("binomial");
    reveal_strlit("poisson");
    reveal_strlit("gamma");
    reveal_strlit("inverse_gaussian");
    assert("binomial"@[0] != "gaussian"@[0]);
    assert("binomial"@.len() == 8 && "gaussian"@.len() == 8 && "poisson"@.len() == 7);
    assert("gamma"@.len() == 5 && "inverse_gaussian"@.len() == 16);
}

/// Parsing a link's name gives the link back.
pub proof fn lemma_link_name_round_trip(l: GlmLink)
    ensures
        spec_parse_link(spec_link_name(l)) == Some(l),
{
    reveal_strlit("identity");
    reveal_strlit("log");
    reveal_strlit("logit");
    reveal_strlit("probit");
    reveal_strlit("inverse");
    reveal_strlit("inverse_squared");
    reveal_strlit("sqrt");
    assert("identity"@.len() == 8 && "log"@.len() == 3 && "logit"@.len() == 5 && "probit"@.len() == 6);
    assert("inverse"@.len() == 7 && "inverse_squared"@.len() == 15 && "sqrt"@.len() == 4);
}

/// Every family's canonical link is valid for it, and is listed first.
pub proof fn lemma_canonical_link_valid(f: GlmFamily)
    ensures
        spec_valid_links(f).contains(spec_canonical_link(f)),
        spec_valid_links(f)[0] == spec_canonical_link(f),
{
    assert(spec_valid_links(f)[0] == spec_canonical_link(f));
}

} // verus!
