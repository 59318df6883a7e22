//! The arguments of the program.

use vstd::prelude::*;
use vstd::string::*;

use crate::net::error::NetError;
use crate::net::tls;
use crate::net::tls::{parse_fingerprint, TlsConfig, Trust};

verus! {

/// What transport the user asked for.
#[derive(Debug, Clone)]
pub enum TlsPolicy {
    /// Try TLS first, fall back to plain TCP on handshake failure. Default.
    Auto(TlsConfig),
    /// Force TLS, no fallback.
    Tls(TlsConfig),
    /// Force plain TCP, skip TLS probe.
    Plain,
}

/// What a [`TlsPolicy`] says.
pub enum Transport {
    Auto(Trust),
    Tls(Trust),
    Plain,
}

impl View for TlsPolicy {
    type V = Transport;

    open spec fn view(&self) -> Transport {
        match self {
            TlsPolicy::Auto(cfg) => Transport::Auto(cfg@),
            TlsPolicy::Tls(cfg) => Transport::Tls(cfg@),
            TlsPolicy::Plain => Transport::Plain,
        }
    }
}

/// What is wrong with the arguments.
#[derive(Debug, Clone, PartialEq, Eq)]
pub enum ArgError {
    /// A subcommand or its address is missing.
    Usage,
    /// The password flag, long or short, is the last argument.
    PasswordValue { short: bool },
    /// `serve` needs an explicit decision on the password: the server has no
    /// other authentication.
    ServePassword,
    /// `--ca-file` is the last argument.
    CaFileValue,
    /// `--fingerprint` is the last argument.
    FingerprintValue,
    /// The value of `--fingerprint` is not a fingerprint.
    Fingerprint(NetError),
    /// `--no-tls` together with a flag that asks for TLS.
    PlainAndTls,
    /// The subcommand is not one of the known ones.
    UnknownCommand,
}

/// What the program is asked to do.
#[derive(Debug, Clone)]
pub enum Command {
    Connect { addr: String, password: String, policy: TlsPolicy },
    Serve { addr: String, password: String },
    View { addr: String, password: String, policy: TlsPolicy },
    Help,
}

/// What a [`Command`] says.
pub enum Request {
    Connect { addr: Seq<char>, password: Seq<char>, policy: Transport },
    Serve { addr: Seq<char>, password: Seq<char> },
    View { addr: Seq<char>, password: Seq<char>, policy: Transport },
    Help,
}

impl View for Command {
    type V = Request;

    open spec fn view(&self) -> Request {
        match self {
            Command::Connect { addr, password, policy } => Request::Connect {
                addr: addr@,
                password: password@,
                policy: policy@,
            },
            Command::Serve { addr, password } => Request::Serve {
                addr: addr@,
                password: password@,
            },
            Command::View { addr, password, policy } => Request::View {
                addr: addr@,
                password: password@,
                policy: policy@,
            },
            Command::Help => Request::Help,
        }
    }
}

/// The texts of the arguments.
pub open spec fn texts(args: Seq<String>) -> Seq<Seq<char>> {
    Seq::new(args.len(), |i: int| args[i]@)
}

/// What a result says: the view of the value, or the error.
pub open spec fn says<T: View>(r: Result<T, ArgError>, want: Result<T::V, ArgError>) -> bool {
    match want {
        Ok(v) => r matches Ok(x) && x@ == v,
        Err(e) => r == Err::<T, ArgError>(e),
    }
}

/// The value after the first password flag.
pub open spec fn password_of(args: Seq<Seq<char>>) -> Result<Option<Seq<char>>, ArgError>
    decreases args.len(),
{
    if args.len() == 0 {
        Ok(None)
    } else if args[0] == "--password"@ || args[0] == "-p"@ {
        if args.len() > 1 {
            Ok(Some(args[1]))
        } else {
            Err(ArgError::PasswordValue { short: args[0] == "-p"@ })
        }
    } else {
        password_of(args.skip(1))
    }
}

/// What the transport flags have set.
pub struct Flags {
    pub tls: bool,
    pub plain: bool,
    pub trust: Option<Trust>,
}

/// The flags, read from left to right onto those before. The last one that
/// says what to trust counts. Anything else is passed over.
pub open spec fn flags_of(args: Seq<Seq<char>>, f: Flags) -> Result<Flags, ArgError>
    decreases args.len(),
{
    if args.len() == 0 {
        Ok(f)
    } else if args[0] == "--tls"@ {
        flags_of(args.skip(1), Flags { tls: true, ..f })
    } else if args[0] == "--no-tls"@ {
        flags_of(args.skip(1), Flags { plain: true, ..f })
    } else if args[0] == "--insecure"@ {
        flags_of(args.skip(1), Flags { trust: Some(Trust::Insecure), ..f })
    } else if args[0] == "--ca-file"@ {
        if args.len() == 1 {
            Err(ArgError::CaFileValue)
        } else {
            flags_of(args.skip(2), Flags { trust: Some(Trust::CaFile(args[1])), ..f })
        }
    } else if args[0] == "--fingerprint"@ {
        if args.len() == 1 {
            Err(ArgError::FingerprintValue)
        } else {
            match tls::fingerprint_of(vstd::utf8::encode_utf8(args[1])) {
                Ok(pin) => flags_of(
                    args.skip(2),
                    Flags { trust: Some(Trust::Fingerprint(pin)), ..f },
                ),
                Err(e) => Err(ArgError::Fingerprint(e)),
            }
        }
    } else {
        flags_of(args.skip(1), f)
    }
}

/// No flag.
pub open spec fn no_flags() -> Flags {
    Flags { tls: false, plain: false, trust: None }
}

/// The transport that flags ask for. A flag that says what to trust implies
/// `--tls`.
pub open spec fn transport_of(f: Flags) -> Result<Transport, ArgError> {
    if f.plain {
        if f.tls || f.trust is Some {
            Err(ArgError::PlainAndTls)
        } else {
            Ok(Transport::Plain)
        }
    } else {
        match f.trust {
            Some(trust) => Ok(Transport::Tls(trust)),
            None => if f.tls {
                Ok(Transport::Tls(Trust::SystemRoots))
            } else {
                Ok(Transport::Auto(Trust::SystemRoots))
            },
        }
    }
}

/// The transport that arguments ask for.
pub open spec fn policy_of(args: Seq<Seq<char>>) -> Result<Transport, ArgError> {
    match flags_of(args, no_flags()) {
        Ok(f) => transport_of(f),
        Err(e) => Err(e),
    }
}

/// The password and the transport of a client, where no password is the empty
/// one. The password is looked at first.
pub open spec fn client_of(rest: Seq<Seq<char>>) -> Result<(Seq<char>, Transport), ArgError> {
    match password_of(rest) {
        Err(e) => Err(e),
        Ok(password) => match policy_of(rest) {
            Err(e) => Err(e),
            Ok(policy) => Ok(
                (
                    match password {
                        Some(p) => p,
                        None => Seq::empty(),
                    },
                    policy,
                ),
            ),
        },
    }
}

/// What the arguments, without the program's name, ask for.
pub open spec fn request_of(args: Seq<Seq<char>>) -> Result<Request, ArgError> {
    if args.len() == 0 {
        Err(ArgError::Usage)
    } else if args[0] == "connect"@ {
        if args.len() == 1 {
            Err(ArgError::Usage)
        } else {
            match client_of(args.skip(2)) {
                Ok((password, policy)) => Ok(
                    Request::Connect { addr: args[1], password, policy },
                ),
                Err(e) => Err(e),
            }
        }
    } else if args[0] == "serve"@ {
        if args.len() == 1 {
            Err(ArgError::Usage)
        } else {
            match password_of(args.skip(2)) {
                Ok(Some(password)) => Ok(Request::Serve { addr: args[1], password }),
                Ok(None) => Err(ArgError::ServePassword),
                Err(e) => Err(e),
            }
        }
    } else if args[0] == "view"@ {
        if args.len() == 1 {
            Err(ArgError::Usage)
        } else {
            match client_of(args.skip(2)) {
                Ok((password, policy)) => Ok(Request::View { addr: args[1], password, policy }),
                Err(e) => Err(e),
            }
        }
    } else if args[0] == "-h"@ || args[0] == "--help"@ || args[0] == "help"@ {
        Ok(Request::Help)
    } else {
        Err(ArgError::UnknownCommand)
    }
}

/// The argument is this text.
fn is(a: &String, text: &str) -> (b: bool)
    ensures
        b == (a@ == text@),
{
    *a == String::from_str(text)
}

/// The value of `--password VALUE` or `-p VALUE`, the first of them; `None`
/// where neither was passed. The value may be empty.
pub fn parse_password_flag(args: &[String]) -> (r: Result<Option<String>, ArgError>)
    ensures
        match password_of(texts(args@)) {
            Ok(Some(p)) => r matches Ok(Some(s)) && s@ == p,
            Ok(None) => r == Ok::<Option<String>, ArgError>(None),
            Err(e) => r == Err::<Option<String>, ArgError>(e),
        },
{
    let ghost all = texts(args@);
    let mut i: usize = 0;
    assert(all.skip(0) =~= all);
    while i < args.len()
        invariant
            i <= args@.len(),
            all == texts(args@),
            password_of(all.skip(i as int)) == password_of(all),
        decreases args@.len() - i,
    {
        let ghost now = all.skip(i as int);
        assert(now.skip(1) =~= all.skip(i + 1));
        assert(now[0] == args@[i as int]@);
        let short: bool = is(&args[i], "-p");
        if is(&args[i], "--password") || short {
            if i + 1 < args.len() {
                assert(now[1] == args@[i + 1]@);
                return Ok(Some(args[i + 1].clone()));
            }
            return Err(ArgError::PasswordValue { short });
        }
        i = i + 1;
    }
    Ok(None)
}

/// Parse `--tls / --no-tls / --ca-file / --fingerprint / --insecure`.
pub fn parse_tls_policy(args: &[String]) -> (r: Result<TlsPolicy, ArgError>)
    ensures
        says(r, policy_of(texts(args@))),
{
    let ghost all = texts(args@);
    let mut force_tls: bool = false;
    let mut force_plain: bool = false;
    let mut cfg: Option<TlsConfig> = None;
    let ghost mut flags = no_flags();
    let mut i: usize = 0;
    assert(all.skip(0) =~= all);
    while i < args.len()
        invariant
            i <= args@.len(),
            all == texts(args@),
            flags.tls == force_tls,
            flags.plain == force_plain,
            match cfg {
                Some(c) => flags.trust == Some(c@),
                None => flags.trust is None,
            },
            flags_of(all.skip(i as int), flags) == flags_of(all, no_flags()),
        decreases args@.len() - i,
    {
        let ghost now = all.skip(i as int);
        proof {
            assert(now.skip(1) =~= all.skip(i + 1));
            assert(now[0] == args@[i as int]@);
            if i + 1 < args@.len() {
                assert(now.skip(2) =~= all.skip(i + 2));
                assert(now[1] == args@[i + 1]@);
            }
        }
        let a = &args[i];
        if is(a, "--tls") {
            force_tls = true;
            proof {
                flags = Flags { tls: true, ..flags };
            }
        } else if is(a, "--no-tls") {
            force_plain = true;
            proof {
                flags = Flags { plain: true, ..flags };
            }
        } else if is(a, "--insecure") {
            cfg = Some(TlsConfig::Insecure);
            proof {
                flags = Flags { trust: Some(Trust::Insecure), ..flags };
            }
        } else if is(a, "--ca-file") {
            if i + 1 >= args.len() {
                return Err(ArgError::CaFileValue);
            }
            cfg = Some(TlsConfig::CaFile(args[i + 1].clone()));
            proof {
                flags = Flags { trust: Some(Trust::CaFile(args@[i + 1]@)), ..flags };
            }
            i = i + 1;
        } else if is(a, "--fingerprint") {
            if i + 1 >= args.len() {
                return Err(ArgError::FingerprintValue);
            }
            match parse_fingerprint(args[i + 1].as_str()) {
                Ok(pin) => {
                    cfg = Some(TlsConfig::Fingerprint(pin));
                    proof {
                        flags = Flags { trust: Some(Trust::Fingerprint(pin@)), ..flags };
                    }
                },
                Err(e) => {
                    return Err(ArgError::Fingerprint(e));
                },
            }
            i = i + 1;
        }
        i = i + 1;
    }
    if force_plain {
        if force_tls || cfg.is_some() {
            return Err(ArgError::PlainAndTls);
        }
        return Ok(TlsPolicy::Plain);
    }
    match cfg {
        Some(c) => Ok(TlsPolicy::Tls(c)),
        None => if force_tls {
            Ok(TlsPolicy::Tls(TlsConfig::SystemRoots))
        } else {
            Ok(TlsPolicy::Auto(TlsConfig::SystemRoots))
        },
    }
}

fn client_args(rest: &[String]) -> (r: Result<(String, TlsPolicy), ArgError>)
    ensures
        match client_of(texts(rest@)) {
            Ok((password, policy)) => r matches Ok((p, t)) && p@ == password && t@ == policy,
            Err(e) => r == Err::<(String, TlsPolicy), ArgError>(e),
        },
{
    let password = match parse_password_flag(rest)? {
        Some(p) => p,
        None => String::new(),
    };
    let policy = parse_tls_policy(rest)?;
    Ok((password, policy))
}

/// What the arguments, without the program's name, ask for.
pub fn parse_args(args: &[String]) -> (r: Result<Command, ArgError>)
    ensures
        says(r, request_of(texts(args@))),
{
    if args.len() == 0 {
        return Err(ArgError::Usage);
    }
    let command = &args[0];
    let connect: bool = is(command, "connect");
    let serve: bool = is(command, "serve");
    if connect || serve || is(command, "view") {
        if args.len() == 1 {
            return Err(ArgError::Usage);
        }
        let addr = args[1].clone();
        let rest = vstd::slice::slice_subrange(args, 2, args.len());
        assert(texts(rest@) =~= texts(args@).skip(2));
        if serve && !connect {
            return match parse_password_flag(rest)? {
                Some(password) => Ok(Command::Serve { addr, password }),
                None => Err(ArgError::ServePassword),
            };
        }
        let (password, policy) = client_args(rest)?;
        if connect {
            return Ok(Command::Connect { addr, password, policy });
        }
        return Ok(Command::View { addr, password, policy });
    }
    if is(command, "-h") || is(command, "--help") || is(command, "help") {
        return Ok(Command::Help);
    }
    Err(ArgError::UnknownCommand)
}

/// A connection that may fall back to plain TCP never pins a certificate and
/// never skips its verification: flags that do imply `--tls`.
pub proof fn only_default_trust_falls_back(args: Seq<Seq<char>>, trust: Trust)
    requires
        policy_of(args) == Ok::<Transport, ArgError>(Transport::Auto(trust)),
    ensures
        trust == Trust::SystemRoots,
{
}

/// `serve` never starts without an explicit password.
pub proof fn serving_takes_an_explicit_password(args: Seq<Seq<char>>)
    requires
        request_of(args) matches Ok(Request::Serve { .. }),
    ensures
        exists|i: int|
            2 <= i < args.len() - 1 && (#[trigger] args[i] == "--password"@ || args[i] == "-p"@),
{
    lemma_password_flag(args.skip(2));
    let k = choose|k: int|
        0 <= k < args.skip(2).len() - 1 && (#[trigger] args.skip(2)[k] == "--password"@
            || args.skip(2)[k] == "-p"@);
    assert(args[k + 2] == args.skip(2)[k]);
}

proof fn lemma_password_flag(args: Seq<Seq<char>>)
    requires
        password_of(args) matches Ok(Some(_)),
    ensures
        exists|i: int|
            0 <= i < args.len() - 1 && (#[trigger] args[i] == "--password"@ || args[i] == "-p"@),
    decreases args.len(),
{
    if args[0] == "--password"@ || args[0] == "-p"@ {
        assert(0 <= 0 < args.len() - 1);
    } else {
        lemma_password_flag(args.skip(1));
        let k = choose|k: int|
            0 <= k < args.skip(1).len() - 1 && (#[trigger] args.skip(1)[k] == "--password"@
                || args.skip(1)[k] == "-p"@);
        assert(args[k + 1] == args.skip(1)[k]);
    }
}

} // verus!
