//! The final state of the accounts as delimited text.
use crate::account::Client;
use crate::decimal::{amount_text, append_amount, append_decimal, decimal_text};
use std::collections::HashMap;
use vstd::prelude::*;

verus! {

/// The text of the locked flag.
pub open spec fn flag_text(locked: bool) -> Seq<char> {
    if locked {
        "true"@
    } else {
        "false"@
    }
}

/// The first line of a report, which names the columns.
pub open spec fn heading() -> Seq<char> {
    "client,available,held,total,locked"@.push('\n')
}

/// The line of one account: client id, available, held and total funds with
/// four fractional digits each, and the locked flag.
pub open spec fn account_row(client_id: u16, account: Client) -> Seq<char> {
    decimal_text(client_id as nat).push(',') + amount_text(account.available as int).push(',')
        + amount_text(account.held as int).push(',') + amount_text(account.total as int).push(
        ',',
    ) + flag_text(account.locked).push('\n')
}

/// The lines of the accounts whose client id is below `bound`, by ascending
/// client id.
pub open spec fn rows_below(accounts: Map<u16, Client>, bound: nat) -> Seq<char>
    decreases bound,
{
    if bound == 0 {
        Seq::empty()
    } else {
        let id = (bound - 1) as u16;
        rows_below(accounts, (bound - 1) as nat) + (if accounts.contains_key(id) {
            account_row(id, accounts[id])
        } else {
            Seq::empty()
        })
    }
}

/// The whole report: the heading, then one line for each account, by
/// ascending client id.
pub open spec fn report_text(accounts: Map<u16, Client>) -> Seq<char> {
    heading() + rows_below(accounts, 0x1_0000)
}

/// Appends the line of one account to `out`.
pub fn append_account_row(out: &mut String, client_id: u16, account: &Client)
    ensures
        final(out)@ == old(out)@ + account_row(client_id, *account),
{
    append_decimal(out, client_id as u64);
    out.append(",");
    append_amount(out, account.available);
    out.append(",");
    append_amount(out, account.held);
    out.append(",");
    append_amount(out, account.total);
    out.append(",");
    if account.locked {
        out.append("true");
    } else {
        out.append("false");
    }
    out.append("\n");
    proof {
        reveal_strlit(",");
        reveal_strlit("\n");
        assert(","@ =~= seq![',']);
        assert("\n"@ =~= seq!['\n']);
        assert(out@ =~= old(out)@ + account_row(client_id, *account));
    }
}

/// The line of one account. See [`account_row`].
pub fn render_account(client_id: u16, account: &Client) -> (text: String)
    ensures
        text@ == account_row(client_id, *account),
{
    let mut text = String::new();
    append_account_row(&mut text, client_id, account);
    assert(text@ =~= account_row(client_id, *account));
    text
}

/// Renders the accounts as a report. See [`report_text`].
pub fn render_report(clients: &HashMap<u16, Client>) -> (text: String)
    ensures
        text@ == report_text(clients@),
{
    let mut text = String::new();
    text.append("client,available,held,total,locked");
    text.append("\n");
    proof {
        reveal_strlit("\n");
        assert("\n"@ =~= seq!['\n']);
        assert(text@ =~= heading());
    }
    let mut next: u32 = 0;
    while next < 0x1_0000
        invariant
            next <= 0x1_0000,
            text@ == heading() + rows_below(clients@, next as nat),
        decreases 0x1_0000 - next,
    {
        let id = next as u16;
        let ghost before = text@;
        match clients.get(&id) {
            Some(account) => {
                append_account_row(&mut text, id, account);
            },
            None => {},
        }
        next = next + 1;
        proof {
            assert(text@ =~= heading() + rows_below(clients@, next as nat));
        }
    }
    text
}

} // verus!
