//! Having `arangosh` explain a query.

use crate::client::Client;
use vstd::prelude::*;
use vstd::string::*;

verus! {

/// The script that explains the query in the environment, so the printed plan is byte-for-byte
/// what `db._explain(...)` produces in a regular arangosh session.
pub open spec fn script_text() -> Seq<char> {
    "const internal = require('internal');const data = {query: internal.env.VRECALL_QUERY,bindVars: JSON.parse(internal.env.VRECALL_BIND)};require('@arangodb/aql/explainer').explain(data, undefined, true);"@
}

/// The arguments of `arangosh`. Where there is no password, it does not authenticate.
pub open spec fn arguments(client: crate::client::ClientView, db: Seq<char>) -> Seq<Seq<char>> {
    seq![
        "--server.endpoint"@,
        client.endpoint,
        "--server.username"@,
        client.user,
        "--server.password"@,
        client.password,
        "--server.database"@,
        db,
        "--server.authentication"@,
        if client.password.len() == 0 {
            "false"@
        } else {
            "true"@
        },
        "--quiet"@,
        "--javascript.execute-string"@,
        script_text(),
    ]
}

/// Every option of the server is followed by its value, and `arangosh` authenticates exactly where
/// there is a password.
pub proof fn law_arguments(client: crate::client::ClientView, db: Seq<char>)
    ensures
        ({
            let all = arguments(client, db);
            &&& all[0] == "--server.endpoint"@ && all[1] == client.endpoint
            &&& all[2] == "--server.username"@ && all[3] == client.user
            &&& all[4] == "--server.password"@ && all[5] == client.password
            &&& all[6] == "--server.database"@ && all[7] == db
            &&& all[8] == "--server.authentication"@
            &&& all[9] == "true"@ <==> client.password != Seq::<char>::empty()
            &&& all[9] == "false"@ <==> client.password == Seq::<char>::empty()
        }),
{
    reveal_strlit("true");
    reveal_strlit("false");
    assert("true"@.len() != "false"@.len());
    if client.password.len() == 0 {
        assert(client.password =~= Seq::empty());
    }
}

/// The arguments of `arangosh`, which finds the query and its bind variables in the environment.
pub fn arangosh_args(client: &Client, db: &str) -> (res: Vec<String>)
    ensures
        crate::text::texts(res@) == arguments(client@, db@),
{
    let authentication = if client.password().unicode_len() == 0 {
        "false"
    } else {
        "true"
    };
    let res = vec![
        "--server.endpoint".to_owned(),
        client.endpoint().to_owned(),
        "--server.username".to_owned(),
        client.user().to_owned(),
        "--server.password".to_owned(),
        client.password().to_owned(),
        "--server.database".to_owned(),
        db.to_owned(),
        "--server.authentication".to_owned(),
        authentication.to_owned(),
        "--quiet".to_owned(),
        "--javascript.execute-string".to_owned(),
        "const internal = require('internal');const data = {query: internal.env.VRECALL_QUERY,bindVars: JSON.parse(internal.env.VRECALL_BIND)};require('@arangodb/aql/explainer').explain(data, undefined, true);".to_owned(),
    ];
    assert(crate::text::texts(res@) =~= arguments(client@, db@));
    res
}

/// What the user is told where `arangosh` could not be run, for the reason `reason`.
pub fn not_explained_lines(reason: &str) -> (res: String)
    ensures
        res@ == "(could not run arangosh explainer: "@ + reason@
            + ")\n  hint: ensure `arangosh` is on PATH, or pass VRECALL_ARANGOSH=/path/to/arangosh\n\n"@,
{
    let mut out = "(could not run arangosh explainer: ".to_owned();
    out.append(reason);
    out.append(
        ")\n  hint: ensure `arangosh` is on PATH, or pass VRECALL_ARANGOSH=/path/to/arangosh\n\n",
    );
    out
}

} // verus!
