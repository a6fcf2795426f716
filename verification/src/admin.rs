//! The worker's admin routes and the secrets that go with its accounts.
use vstd::prelude::*;
use vstd::string::*;
use crate::text::{chars_of, string_of, upper_char};

verus! {

/// The header that carries the admin key.
pub const ADMIN_KEY_HEADER: &'static str = "X-Admin-Key";

/// The text without slashes at its end.
pub open spec fn without_end_slashes(text: Seq<char>) -> Seq<char>
    decreases text.len(),
{
    if text.len() > 0 && text.last() == '/' {
        without_end_slashes(text.drop_last())
    } else {
        text
    }
}

/// Joins an endpoint and a path that starts with a slash.
pub fn url(endpoint: &str, path: &str) -> (joined: String)
    ensures
        joined@ == without_end_slashes(endpoint@) + path@,
{
    let chars: Vec<char> = chars_of(endpoint);
    let mut end: usize = chars.len();
    assert(chars@.take(end as int) =~= endpoint@);
    while end > 0 && chars[end - 1] == '/'
        invariant
            end <= chars@.len(),
            without_end_slashes(endpoint@) == without_end_slashes(chars@.take(end as int)),
        decreases end,
    {
        assert(chars@.take(end as int).drop_last() =~= chars@.take(end - 1));
        end = end - 1;
    }
    assert(chars@.subrange(0, end as int) =~= chars@.take(end as int));
    string_of(&chars, 0, end).concat(path)
}

/// A request to the worker's admin routes.
#[derive(Debug, PartialEq, Eq)]
pub enum AdminRequest {
    ListAccounts,
    AddAccount,
    DeleteAccount { name: String },
    AdoptTrade,
    TestAccount { name: String },
}

/// The method of a request.
#[derive(Clone, Copy, Debug, PartialEq, Eq, Structural)]
pub enum Method {
    Get,
    Post,
    Delete,
}

impl AdminRequest {
    /// The path of the request.
    pub open spec fn route(self) -> Seq<char> {
        match self {
            AdminRequest::ListAccounts => "/admin/accounts"@,
            AdminRequest::AddAccount => "/admin/accounts"@,
            AdminRequest::DeleteAccount { name } => "/admin/accounts/"@ + name@,
            AdminRequest::AdoptTrade => "/admin/adopt-trade"@,
            AdminRequest::TestAccount { name } => "/admin/accounts/"@ + name@ + "/test"@,
        }
    }

    /// The path of the request.
    pub fn path(&self) -> (p: String)
        ensures
            p@ == self.route(),
    {
        match self {
            AdminRequest::ListAccounts => "/admin/accounts".to_owned(),
            AdminRequest::AddAccount => "/admin/accounts".to_owned(),
            AdminRequest::DeleteAccount { name } => "/admin/accounts/".to_owned().concat(
                name.as_str(),
            ),
            AdminRequest::AdoptTrade => "/admin/adopt-trade".to_owned(),
            AdminRequest::TestAccount { name } => "/admin/accounts/".to_owned().concat(
                name.as_str(),
            ).concat("/test"),
        }
    }

    /// The method of the request.
    pub fn method(&self) -> (m: Method)
        ensures
            m == match *self {
                AdminRequest::ListAccounts => Method::Get,
                AdminRequest::DeleteAccount { .. } => Method::Delete,
                _ => Method::Post,
            },
    {
        match self {
            AdminRequest::ListAccounts => Method::Get,
            AdminRequest::DeleteAccount { .. } => Method::Delete,
            _ => Method::Post,
        }
    }

    /// Whether the request carries a JSON body.
    pub fn has_body(&self) -> (b: bool)
        ensures
            b == (self is AddAccount || self is AdoptTrade),
    {
        matches!(*self, AdminRequest::AddAccount | AdminRequest::AdoptTrade)
    }
}

/// What a response comes to: its body where the status is a success, else an error with status
/// and body. `shown` is the status as it is printed.
pub fn consume(status: u16, shown: &str, text: String) -> (r: Result<String, String>)
    ensures
        match r {
            Ok(body) => 200 <= status < 300 && body == text,
            Err(message) => !(200 <= status < 300) && message@ == "worker returned "@ + shown@
                + ": "@ + text@,
        },
{
    if 200 <= status && status < 300 {
        Ok(text)
    } else {
        Err("worker returned ".to_owned().concat(shown).concat(": ").concat(text.as_str()))
    }
}

/// A broker that accounts are held with.
#[derive(Clone, Copy, Debug, PartialEq, Eq, Structural)]
pub enum BrokerKind {
    TradeNation,
    Oanda,
}

/// The character in upper case, with a dash made an underscore.
pub open spec fn binding_char(c: char) -> char {
    if c == '-' {
        '_'
    } else {
        upper_char(c)
    }
}

/// The name of an account's secret: the broker's prefix, then the account's name in upper case
/// with dashes made underscores.
pub open spec fn binding_of(broker: BrokerKind, account: Seq<char>) -> Seq<char> {
    (match broker {
        BrokerKind::TradeNation => "TN_ACCOUNT_"@,
        BrokerKind::Oanda => "OANDA_ACCOUNT_"@,
    }) + account.map_values(|c: char| binding_char(c))
}

/// The name of an account's secret.
pub fn secret_binding_for(broker: BrokerKind, account_name: &str) -> (binding: String)
    ensures
        binding@ == binding_of(broker, account_name@),
{
    let mut binding: String = match broker {
        BrokerKind::TradeNation => "TN_ACCOUNT_".to_owned(),
        BrokerKind::Oanda => "OANDA_ACCOUNT_".to_owned(),
    };
    let ghost prefix = binding@;
    let chars: Vec<char> = chars_of(account_name);
    let mut i: usize = 0;
    assert(binding@ =~= prefix + chars@.take(0).map_values(|c: char| binding_char(c)));
    while i < chars.len()
        invariant
            i <= chars@.len(),
            binding@ == prefix + chars@.take(i as int).map_values(|c: char| binding_char(c)),
        decreases chars@.len() - i,
    {
        let c: char = chars[i];
        let b: char = if c == '-' {
            '_'
        } else if 'a' <= c && c <= 'z' {
            (c as u8 - 32) as char
        } else {
            c
        };
        binding.push(b);
        i = i + 1;
        assert(binding@ =~= prefix + chars@.take(i as int).map_values(|c: char| binding_char(c)));
    }
    assert(chars@.take(i as int) =~= account_name@);
    binding
}

/// What is done with a secret.
#[derive(Clone, Copy, Debug, PartialEq, Eq, Structural)]
pub enum SecretAction {
    Put,
    Delete,
}

/// The arguments that the secret tool is run with: the action, the secret's name and the worker,
/// named so that the working directory does not matter. A credential is never among them: it goes
/// by standard input.
pub fn secret_args(action: SecretAction, binding: &String, worker: &String) -> (args: Vec<String>)
    ensures
        args@.len() == 5,
        args@[0]@ == "secret"@,
        args@[1]@ == match action {
            SecretAction::Put => "put"@,
            SecretAction::Delete => "delete"@,
        },
        args@[2] == *binding,
        args@[3]@ == "--name"@,
        args@[4] == *worker,
{
    let mut args: Vec<String> = Vec::new();
    args.push("secret".to_owned());
    args.push(
        match action {
            SecretAction::Put => "put".to_owned(),
            SecretAction::Delete => "delete".to_owned(),
        },
    );
    args.push(binding.clone());
    args.push("--name".to_owned());
    args.push(worker.clone());
    args
}

/// A joined address never doubles the slash between endpoint and path.
pub proof fn an_endpoint_ends_before_its_slashes(endpoint: Seq<char>)
    ensures
        ({
            let base = without_end_slashes(endpoint);
            base.len() > 0 ==> base.last() != '/'
        }),
        without_end_slashes(endpoint.push('/')) == without_end_slashes(endpoint),
    decreases endpoint.len(),
{
    assert(endpoint.push('/').drop_last() =~= endpoint);
    if endpoint.len() > 0 && endpoint.last() == '/' {
        an_endpoint_ends_before_its_slashes(endpoint.drop_last());
    }
}

/// A joined address is the endpoint up to its last character that is no slash, then the path:
/// nothing of the endpoint is lost but slashes at its end.
pub proof fn only_end_slashes_are_dropped(endpoint: Seq<char>)
    ensures
        ({
            let base = without_end_slashes(endpoint);
            &&& base.len() <= endpoint.len()
            &&& base == endpoint.take(base.len() as int)
            &&& forall|i: int| base.len() <= i < endpoint.len() ==> #[trigger] endpoint[i] == '/'
            &&& base.len() > 0 ==> base[base.len() - 1] != '/'
        }),
    decreases endpoint.len(),
{
    let base = without_end_slashes(endpoint);
    if endpoint.len() > 0 && endpoint.last() == '/' {
        let less = endpoint.drop_last();
        only_end_slashes_are_dropped(less);
        assert(base =~= endpoint.take(base.len() as int)) by {
            assert(base =~= less.take(base.len() as int));
        }
        assert forall|i: int| base.len() <= i < endpoint.len() implies #[trigger] endpoint[i]
            == '/' by {
            if i < less.len() {
                assert(less[i] == endpoint[i]);
            }
        }
    } else {
        assert(endpoint.take(endpoint.len() as int) =~= endpoint);
    }
}

/// The name of a secret is the broker's prefix and then, character by character, the account's: a
/// dash as an underscore, a to z as A to Z, and everything else as it is.
pub proof fn a_binding_spells_its_account(broker: BrokerKind, account: Seq<char>)
    ensures
        ({
            let prefix = if broker == BrokerKind::Oanda {
                "OANDA_ACCOUNT_"@
            } else {
                "TN_ACCOUNT_"@
            };
            let binding = binding_of(broker, account);
            &&& binding.len() == prefix.len() + account.len()
            &&& binding.take(prefix.len() as int) == prefix
            &&& forall|i: int|
                0 <= i < account.len() ==> {
                    let (c, b) = (#[trigger] account[i], binding[prefix.len() + i]);
                    &&& c == '-' ==> b == '_'
                    &&& 'a' <= c <= 'z' ==> b as u32 == c as u32 - 32
                    &&& c != '-' && !('a' <= c <= 'z') ==> b == c
                }
        }),
{
    let prefix = if broker == BrokerKind::Oanda {
        "OANDA_ACCOUNT_"@
    } else {
        "TN_ACCOUNT_"@
    };
    assert(binding_of(broker, account).take(prefix.len() as int) =~= prefix);
}

/// An account's own address is the accounts' address, a slash and its name; its test is under that.
/// Adding goes where listing does.
pub proof fn accounts_are_under_one_address(name: String)
    ensures
        AdminRequest::AddAccount.route() == AdminRequest::ListAccounts.route(),
        (AdminRequest::DeleteAccount { name }).route() == AdminRequest::ListAccounts.route() + seq![
            '/',
        ] + name@,
        (AdminRequest::TestAccount { name }).route() == (AdminRequest::DeleteAccount {
            name,
        }).route() + "/test"@,
{
    reveal_strlit("/admin/accounts");
    reveal_strlit("/admin/accounts/");
    assert("/admin/accounts/"@ =~= "/admin/accounts"@ + seq!['/']);
}

} // verus!
