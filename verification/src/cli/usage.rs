//! What arguments mean, whatever stands round them.

use vstd::prelude::*;

use crate::cli::args;
use crate::cli::args::{ArgError, Flags, Request, Transport};
use crate::cli::connect;
use crate::net::tls::Trust;

verus! {

/// An argument that asks for a password.
pub open spec fn asks_password(arg: Seq<char>) -> bool {
    arg == "--password"@ || arg == "-p"@
}

/// The password is what follows the first flag that asks for one; without such
/// a flag there is none.
pub proof fn password_follows_its_flag(
    front: Seq<Seq<char>>,
    flag: Seq<char>,
    password: Seq<char>,
    back: Seq<Seq<char>>,
)
    requires
        forall|i: int| 0 <= i < front.len() ==> !asks_password(#[trigger] front[i]),
        asks_password(flag),
    ensures
        args::password_of(front + seq![flag, password] + back) == Ok::<
            Option<Seq<char>>,
            ArgError,
        >(Some(password)),
        args::password_of(front) == Ok::<Option<Seq<char>>, ArgError>(None),
        args::password_of(front.push(flag)) is Err,
    decreases front.len(),
{
    let all = front + seq![flag, password] + back;
    if front.len() == 0 {
        assert(all[0] == flag && all[1] == password);
        assert(front.push(flag)[0] == flag);
    } else {
        let rest = front.skip(1);
        assert(!asks_password(front[0]));
        assert(all[0] == front[0]);
        assert forall|i: int| 0 <= i < rest.len() implies !asks_password(#[trigger] rest[i]) by {
            assert(!asks_password(front[i + 1]));
        }
        password_follows_its_flag(rest, flag, password, back);
        assert(all.skip(1) =~= rest + seq![flag, password] + back);
        assert(front.push(flag).skip(1) =~= rest.push(flag));
        assert(front.push(flag)[0] == front[0]);
    }
}

/// An argument that takes the next one with it.
pub open spec fn takes_value(arg: Seq<char>) -> bool {
    arg == "--ca-file"@ || arg == "--fingerprint"@
}

proof fn lemma_options_differ()
    ensures
        "--tls"@ != "--no-tls"@,
        "--tls"@ != "--insecure"@,
        "--no-tls"@ != "--insecure"@,
{
    reveal_strlit("--tls");
    reveal_strlit("--no-tls");
    reveal_strlit("--insecure");
    assert("--tls"@.len() == 5);
    assert("--no-tls"@.len() == 8);
    assert("--insecure"@.len() == 10);
}

proof fn lemma_flags(given: Seq<Seq<char>>, f: Flags)
    requires
        forall|i: int| 0 <= i < given.len() ==> !takes_value(#[trigger] given[i]),
    ensures
        args::flags_of(given, f) matches Ok(g) && {
            &&& g.tls <==> f.tls || given.contains("--tls"@)
            &&& g.plain <==> f.plain || given.contains("--no-tls"@)
            &&& g.trust == if given.contains("--insecure"@) {
                Some(Trust::Insecure)
            } else {
                f.trust
            }
        },
    decreases given.len(),
{
    if given.len() > 0 {
        lemma_options_differ();
        assert(!takes_value(given[0]));
        let rest = given.skip(1);
        assert forall|i: int| 0 <= i < rest.len() implies !takes_value(#[trigger] rest[i]) by {
            assert(!takes_value(given[i + 1]));
        }
        assert forall|x: Seq<char>| given.contains(x) <==> x == given[0] || rest.contains(x) by {
            if rest.contains(x) {
                let i = choose|i: int| 0 <= i < rest.len() && rest[i] == x;
                assert(given[i + 1] == x);
            }
            if given.contains(x) && x != given[0] {
                let i = choose|i: int| 0 <= i < given.len() && given[i] == x;
                assert(rest[i - 1] == x);
            }
        }
        let g = if given[0] == "--tls"@ {
            Flags { tls: true, ..f }
        } else if given[0] == "--no-tls"@ {
            Flags { plain: true, ..f }
        } else if given[0] == "--insecure"@ {
            Flags { trust: Some(Trust::Insecure), ..f }
        } else {
            f
        };
        lemma_flags(rest, g);
    }
}

/// Where no file nor fingerprint is named, the transport goes by which options
/// are there, not by their order: without any it is encrypted or, where the
/// peer is not, plain; `--no-tls` makes it plain, and does not go with the
/// others; `--tls` keeps it encrypted, and `--insecure` too, with any peer.
pub proof fn transport_goes_by_options(given: Seq<Seq<char>>)
    requires
        forall|i: int| 0 <= i < given.len() ==> !takes_value(#[trigger] given[i]),
    ensures
        ({
            let tls = given.contains("--tls"@);
            let plain = given.contains("--no-tls"@);
            let any = given.contains("--insecure"@);
            args::policy_of(given) == (if plain && (tls || any) {
                Err(ArgError::PlainAndTls)
            } else if plain {
                Ok(Transport::Plain)
            } else if any {
                Ok(Transport::Tls(Trust::Insecure))
            } else if tls {
                Ok(Transport::Tls(Trust::SystemRoots))
            } else {
                Ok(Transport::Auto(Trust::SystemRoots))
            })
        }),
{
    lemma_flags(given, args::no_flags());
}

/// The last argument, where it names a file of authorities, is what is trusted.
pub proof fn last_ca_file_is_trusted(front: Seq<Seq<char>>, path: Seq<char>)
    requires
        forall|i: int| 0 <= i < front.len() ==> !takes_value(#[trigger] front[i]),
        !front.contains("--no-tls"@),
    ensures
        args::policy_of(front + seq!["--ca-file"@, path]) == Ok::<Transport, ArgError>(
            Transport::Tls(Trust::CaFile(path)),
        ),
        args::policy_of(front + seq!["--ca-file"@]) == Err::<Transport, ArgError>(
            ArgError::CaFileValue,
        ),
{
    lemma_ca_file(front, path, args::no_flags());
}

proof fn lemma_ca_file(front: Seq<Seq<char>>, path: Seq<char>, f: Flags)
    requires
        forall|i: int| 0 <= i < front.len() ==> !takes_value(#[trigger] front[i]),
        !front.contains("--no-tls"@),
    ensures
        args::flags_of(front + seq!["--ca-file"@, path], f) matches Ok(g) && g.plain == f.plain
            && g.trust == Some(Trust::CaFile(path)),
        args::flags_of(front + seq!["--ca-file"@], f) == Err::<Flags, ArgError>(
            ArgError::CaFileValue,
        ),
    decreases front.len(),
{
    reveal_strlit("--tls");
    reveal_strlit("--no-tls");
    reveal_strlit("--insecure");
    reveal_strlit("--ca-file");
    assert("--tls"@.len() == 5);
    assert("--no-tls"@.len() == 8);
    assert("--insecure"@.len() == 10);
    assert("--ca-file"@.len() == 9);
    let all = front + seq!["--ca-file"@, path];
    let cut = front + seq!["--ca-file"@];
    if front.len() == 0 {
        assert(all.skip(2) =~= Seq::<Seq<char>>::empty());
        assert(all[0] == "--ca-file"@ && cut[0] == "--ca-file"@);
        assert(args::flags_of(all.skip(2), Flags { trust: Some(Trust::CaFile(path)), ..f })
            is Ok);
    } else {
        let rest = front.skip(1);
        assert(!takes_value(front[0]));
        assert(front.contains(front[0]));
        assert forall|i: int| 0 <= i < rest.len() implies !takes_value(#[trigger] rest[i]) by {
            assert(!takes_value(front[i + 1]));
        }
        assert(!rest.contains("--no-tls"@)) by {
            if rest.contains("--no-tls"@) {
                let i = choose|i: int| 0 <= i < rest.len() && rest[i] == "--no-tls"@;
                assert(front[i + 1] == "--no-tls"@);
            }
        }
        assert(all.skip(1) =~= rest + seq!["--ca-file"@, path]);
        assert(cut.skip(1) =~= rest + seq!["--ca-file"@]);
        let g = if front[0] == "--tls"@ {
            Flags { tls: true, ..f }
        } else if front[0] == "--insecure"@ {
            Flags { trust: Some(Trust::Insecure), ..f }
        } else {
            f
        };
        lemma_ca_file(rest, path, g);
    }
}

/// A command names what to do first and the address second; what follows is for
/// the password and the transport. Without an address there is nothing to do.
pub proof fn commands_name_an_address(addr: Seq<char>, rest: Seq<Seq<char>>)
    ensures
        args::request_of(seq!["connect"@, addr] + rest) == (match args::client_of(rest) {
            Ok((password, policy)) => Ok(Request::Connect { addr, password, policy }),
            Err(e) => Err(e),
        }),
        args::request_of(seq!["view"@, addr] + rest) == (match args::client_of(rest) {
            Ok((password, policy)) => Ok(Request::View { addr, password, policy }),
            Err(e) => Err(e),
        }),
        args::request_of(seq!["serve"@, addr] + rest) == (match args::password_of(rest) {
            Ok(Some(password)) => Ok(Request::Serve { addr, password }),
            Ok(None) => Err(ArgError::ServePassword),
            Err(e) => Err(e),
        }),
        args::request_of(seq!["connect"@]) is Err,
        args::request_of(seq!["view"@]) is Err,
        args::request_of(seq!["serve"@]) is Err,
        args::request_of(Seq::empty()) is Err,
{
    reveal_strlit("connect");
    reveal_strlit("view");
    reveal_strlit("serve");
    assert("connect"@.len() == 7);
    assert("view"@.len() == 4);
    assert("serve"@.len() == 5);
    let connect = seq!["connect"@, addr] + rest;
    let view = seq!["view"@, addr] + rest;
    let serve = seq!["serve"@, addr] + rest;
    assert(connect.skip(2) =~= rest);
    assert(view.skip(2) =~= rest);
    assert(serve.skip(2) =~= rest);
}

/// A message tells of a peer that is not encrypted wherever it holds one of
/// five phrases.
pub proof fn phrases_tell_of_a_plain_peer(front: Seq<char>, phrase: Seq<char>, back: Seq<char>)
    requires
        seq![
            "tls handshake"@,
            "invalid sni"@,
            "unexpected eof"@,
            "connection reset"@,
            "decrypt"@,
        ].contains(phrase),
    ensures
        connect::tells_of_plain_peer(front + phrase + back),
{
    let text = front + phrase + back;
    let at = front.len() as int;
    assert(text.subrange(at, at + phrase.len()) =~= phrase);
    assert(connect::stands_at(text, phrase, at));
    assert(connect::stands_in(text, phrase));
    let phrases = seq![
        "tls handshake"@,
        "invalid sni"@,
        "unexpected eof"@,
        "connection reset"@,
        "decrypt"@,
    ];
    let i = choose|i: int| 0 <= i < phrases.len() && phrases[i] == phrase;
    assert(phrases[i] == phrase);
}

} // verus!
