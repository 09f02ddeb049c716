use crate::text::{clone_opt_text, opt_text};
use vstd::prelude::*;
use vstd::string::StringExecFns;

verus! {

/// What the metadata source knows of one contract.
#[derive(Debug, PartialEq, Eq)]
pub struct Contract {
    pub addr: String,
    pub name: Option<String>,
    /// The interface description, as JSON text.
    pub abi: Option<String>,
    pub src: Option<String>,
}

/// The mathematical content of a `Contract`.
pub struct ContractView {
    pub addr: Seq<char>,
    pub name: Option<Seq<char>>,
    pub abi: Option<Seq<char>>,
    pub src: Option<Seq<char>>,
}

impl View for Contract {
    type V = ContractView;

    open spec fn view(&self) -> ContractView {
        ContractView {
            addr: self.addr@,
            name: opt_text(self.name),
            abi: opt_text(self.abi),
            src: opt_text(self.src),
        }
    }
}

impl Clone for Contract {
    fn clone(&self) -> (r: Self)
        ensures
            r == *self,
    {
        Contract {
            addr: self.addr.clone(),
            name: clone_opt_text(&self.name),
            abi: clone_opt_text(&self.abi),
            src: clone_opt_text(&self.src),
        }
    }
}

/// One entry of the source's answer, as it arrives.
#[derive(Debug, PartialEq, Eq)]
pub struct ContractInfo {
    /// The interface description as the source sends it: JSON text, or a
    /// remark in plain words where it has none.
    pub abi: String,
    pub contract_name: Option<String>,
    pub source_code: Option<String>,
}

/// The mathematical content of a `ContractInfo`.
pub struct InfoView {
    pub abi: Seq<char>,
    pub contract_name: Option<Seq<char>>,
    pub source_code: Option<Seq<char>>,
}

impl View for ContractInfo {
    type V = InfoView;

    open spec fn view(&self) -> InfoView {
        InfoView {
            abi: self.abi@,
            contract_name: opt_text(self.contract_name),
            source_code: opt_text(self.source_code),
        }
    }
}

/// The `result` member of the source's answer: a list of entries, or an error
/// in the source's words.
#[derive(Debug, PartialEq, Eq)]
pub enum SourceResult {
    Contracts(Vec<ContractInfo>),
    Error(String),
}

/// Why a fetch brought no contract.
#[derive(Debug, PartialEq, Eq)]
pub enum FetchError {
    /// The request did not get through.
    Network,
    /// The source answered with a status outside 200 to 299.
    Status(u16),
    /// The body of the answer could not be read.
    Malformed,
    /// The source reported an error of its own.
    Reported(String),
}

/// The mathematical content of a `FetchError`.
pub enum FetchErrorView {
    Network,
    Status(u16),
    Malformed,
    Reported(Seq<char>),
}

impl View for FetchError {
    type V = FetchErrorView;

    open spec fn view(&self) -> FetchErrorView {
        match self {
            FetchError::Network => FetchErrorView::Network,
            FetchError::Status(code) => FetchErrorView::Status(*code),
            FetchError::Malformed => FetchErrorView::Malformed,
            FetchError::Reported(message) => FetchErrorView::Reported(message@),
        }
    }
}

/// Whether a text is a JSON document.
pub uninterp spec fn json_parses(text: Seq<char>) -> bool;

/// `serde_json::from_str`, asked for a `serde_json::Value`. The contract names
/// the one thing taken from its answer: whether the text was read as a JSON
/// document or refused.
#[verifier::external_body]
fn parses_as_json(text: &str) -> (r: bool)
    ensures
        r == json_parses(text@),
{
    serde_json::from_str::<serde_json::Value>(text).is_ok()
}

/// Whether a status code tells of success.
pub open spec fn success(status: u16) -> bool {
    200 <= status < 300
}

/// Tells whether a status code lies in 200 to 299.
pub fn is_success(status: u16) -> (r: bool)
    ensures
        r == success(status),
{
    200 <= status && status < 300
}

/// The interface text of the first entry; the empty text where there is no
/// entry.
pub open spec fn abi_text(first: Option<InfoView>) -> Seq<char> {
    match first {
        Some(info) => info.abi,
        None => Seq::empty(),
    }
}

/// The contract that an entry stands for. Name and source text are taken as
/// they are; the interface text is kept only where it is JSON.
pub open spec fn contract_of(addr: Seq<char>, first: Option<InfoView>, abi_is_json: bool) -> ContractView {
    ContractView {
        addr: addr,
        name: match first {
            Some(info) => info.contract_name,
            None => None,
        },
        abi: if abi_is_json {
            Some(abi_text(first))
        } else {
            None
        },
        src: match first {
            Some(info) => info.source_code,
            None => None,
        },
    }
}

/// The content of an optional entry.
pub open spec fn opt_info(o: Option<&ContractInfo>) -> Option<InfoView> {
    match o {
        Some(info) => Some(info@),
        None => None,
    }
}

/// Builds the contract for `addr` from the first entry of an answer, given
/// whether that entry's interface text is JSON.
pub fn contract_from_info(addr: &str, first: Option<&ContractInfo>, abi_is_json: bool) -> (c: Contract)
    ensures
        c@ == contract_of(addr@, opt_info(first), abi_is_json),
{
    match first {
        Some(info) => Contract {
            addr: addr.to_owned(),
            name: clone_opt_text(&info.contract_name),
            abi: if abi_is_json {
                Some(info.abi.clone())
            } else {
                None
            },
            src: clone_opt_text(&info.source_code),
        },
        None => Contract {
            addr: addr.to_owned(),
            name: None,
            abi: if abi_is_json {
                Some(String::new())
            } else {
                None
            },
            src: None,
        },
    }
}

/// The contents of a list of entries.
pub open spec fn info_views(list: Seq<ContractInfo>) -> Seq<InfoView> {
    list.map_values(|i: ContractInfo| i@)
}

/// The first entry of a list, if it has one.
pub open spec fn first_of(list: Seq<InfoView>) -> Option<InfoView> {
    if list.len() > 0 {
        Some(list[0])
    } else {
        None
    }
}

/// The content of an answer's `result` member.
pub enum ResultView {
    Contracts(Seq<InfoView>),
    Error(Seq<char>),
}

/// The content of an answer that may have been unreadable.
pub open spec fn reply_view(reply: Option<SourceResult>) -> Option<ResultView> {
    match reply {
        Some(SourceResult::Contracts(list)) => Some(ResultView::Contracts(info_views(list@))),
        Some(SourceResult::Error(message)) => Some(ResultView::Error(message@)),
        None => None,
    }
}

/// What an answer of the source means for `addr`. A status outside 200 to 299
/// is an error whatever the body holds; then an unreadable body, then an
/// error that the source reports. Of a list of entries the first one counts,
/// and an empty list gives a contract of which nothing is known.
pub open spec fn reading(addr: Seq<char>, status: u16, reply: Option<ResultView>) -> Result<
    ContractView,
    FetchErrorView,
> {
    if !success(status) {
        Err(FetchErrorView::Status(status))
    } else {
        match reply {
            None => Err(FetchErrorView::Malformed),
            Some(ResultView::Error(message)) => Err(FetchErrorView::Reported(message)),
            Some(ResultView::Contracts(list)) => Ok(
                contract_of(addr, first_of(list), json_parses(abi_text(first_of(list)))),
            ),
        }
    }
}

/// The content of what `get_contract` returns.
pub open spec fn fetched_view(r: Result<Contract, FetchError>) -> Result<ContractView, FetchErrorView> {
    match r {
        Ok(contract) => Ok(contract@),
        Err(e) => Err(e@),
    }
}

/// Reads the source's answer to a request for `addr`: its status code and its
/// body, where the body could be read.
pub fn get_contract(addr: &str, status: u16, reply: Option<SourceResult>) -> (r: Result<
    Contract,
    FetchError,
>)
    ensures
        fetched_view(r) == reading(addr@, status, reply_view(reply)),
{
    if !is_success(status) {
        return Err(FetchError::Status(status));
    }
    match reply {
        None => Err(FetchError::Malformed),
        Some(SourceResult::Error(message)) => Err(FetchError::Reported(message)),
        Some(SourceResult::Contracts(list)) => {
            if list.len() > 0 {
                let first = &list[0];
                let ok = parses_as_json(first.abi.as_str());
                Ok(contract_from_info(addr, Some(first), ok))
            } else {
                let ok = parses_as_json("");
                proof {
                    reveal_strlit("");
                    assert(""@ =~= Seq::<char>::empty());
                }
                Ok(contract_from_info(addr, None, ok))
            }
        },
    }
}

/// The character that stands for a digit.
pub open spec fn digit(d: int) -> char {
    if d == 0 {
        '0'
    } else if d == 1 {
        '1'
    } else if d == 2 {
        '2'
    } else if d == 3 {
        '3'
    } else if d == 4 {
        '4'
    } else if d == 5 {
        '5'
    } else if d == 6 {
        '6'
    } else if d == 7 {
        '7'
    } else if d == 8 {
        '8'
    } else {
        '9'
    }
}

/// A number written in decimal, without leading zeros.
pub open spec fn decimal(n: nat) -> Seq<char>
    decreases n,
{
    if n < 10 {
        seq![digit(n as int)]
    } else {
        decimal(n / 10).push(digit((n % 10) as int))
    }
}

/// The address at which the source answers a request for a contract.
pub open spec fn request_url_of(chain_id: u32, addr: Seq<char>, api_key: Seq<char>) -> Seq<char> {
    "https://api.etherscan.io/v2/api?chainid="@ + decimal(chain_id as nat)
        + "&module=contract&action=getsourcecode&address="@ + addr + "&apikey="@ + api_key
}

fn digit_text(d: u32) -> (r: &'static str)
    requires
        d < 10,
    ensures
        r@ == seq![digit(d as int)],
{
    proof {
        reveal_strlit("0");
        reveal_strlit("1");
        reveal_strlit("2");
        reveal_strlit("3");
        reveal_strlit("4");
        reveal_strlit("5");
        reveal_strlit("6");
        reveal_strlit("7");
        reveal_strlit("8");
        reveal_strlit("9");
    }
    let r = if d == 0 {
        "0"
    } else if d == 1 {
        "1"
    } else if d == 2 {
        "2"
    } else if d == 3 {
        "3"
    } else if d == 4 {
        "4"
    } else if d == 5 {
        "5"
    } else if d == 6 {
        "6"
    } else if d == 7 {
        "7"
    } else if d == 8 {
        "8"
    } else {
        "9"
    };
    assert(r@ =~= seq![digit(d as int)]);
    r
}

fn append_decimal(out: &mut String, n: u32)
    ensures
        final(out)@ == old(out)@ + decimal(n as nat),
    decreases n,
{
    if n >= 10 {
        append_decimal(out, n / 10);
    }
    let ghost before = out@;
    out.append(digit_text(n % 10));
    proof {
        if n >= 10 {
            assert(out@ =~= old(out)@ + decimal(n as nat));
        } else {
            assert(out@ =~= old(out)@ + decimal(n as nat));
        }
    }
}

/// Builds the address at which the source is asked for the contract at
/// `addr` on the chain `chain_id`. Nothing is escaped.
pub fn request_url(chain_id: u32, addr: &str, api_key: &str) -> (url: String)
    ensures
        url@ == request_url_of(chain_id, addr@, api_key@),
{
    let mut url = String::from_str("https://api.etherscan.io/v2/api?chainid=");
    append_decimal(&mut url, chain_id);
    url.append("&module=contract&action=getsourcecode&address=");
    url.append(addr);
    url.append("&apikey=");
    url.append(api_key);
    url
}

} // verus!
