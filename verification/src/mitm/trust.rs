//! Whether the root certificate is trusted, and the way to have it trusted.
use vstd::prelude::*;
use crate::dialog::FIRST_BUTTON;
use crate::mitm::MitmError;
use crate::text;

verus! {

/// Whether the system trusts the root certificate.
#[derive(Debug, Clone, Copy, PartialEq, Eq, Structural)]
pub enum TrustState {
    Trusted,
    NotTrusted,
}

/// What the user chose when asked to install the root certificate.
#[derive(Debug, Clone, Copy, PartialEq, Eq, Structural)]
pub enum UserChoice {
    Install,
    Cancel,
}

/// The arguments to the system's tool that check whether the certificate in
/// `pem` is trusted.
pub fn verify_args(pem: &str) -> (r: Vec<String>)
    ensures
        text::texts(r@) == seq!["verify-cert"@, "-c"@, pem@, "-p"@, "ssl"@],
{
    let mut out: Vec<String> = Vec::new();
    out.push("verify-cert".to_owned());
    out.push("-c".to_owned());
    out.push(pem.to_owned());
    out.push("-p".to_owned());
    out.push("ssl".to_owned());
    proof {
        assert(text::texts(out@) =~= seq!["verify-cert"@, "-c"@, pem@, "-p"@, "ssl"@]);
    }
    out
}

/// The arguments to the system's tool that install the certificate in `pem` for
/// the user whose home directory is `home`.
pub fn install_to_login_keychain(home: &str, pem: &str) -> (r: Vec<String>)
    ensures
        text::texts(r@) == seq![
            "add-trusted-cert"@,
            "-k"@,
            home@ + "/Library/Keychains/login.keychain-db"@,
            pem@,
        ],
{
    let mut keychain: String = home.to_owned();
    keychain.append("/Library/Keychains/login.keychain-db");
    let mut out: Vec<String> = Vec::new();
    out.push("add-trusted-cert".to_owned());
    out.push("-k".to_owned());
    out.push(keychain);
    out.push(pem.to_owned());
    proof {
        assert(text::texts(out@) =~= seq![
            "add-trusted-cert"@,
            "-k"@,
            home@ + "/Library/Keychains/login.keychain-db"@,
            pem@,
        ]);
    }
    out
}

/// What came of the installation, given what the tool reported: whether it
/// succeeded, how it ended and what it wrote, or why it could not be run.
pub fn install_outcome(report: Result<(bool, &str, &str), &str>) -> (r: Result<(), String>)
    ensures
        match report {
            Ok((succeeded, status, written)) => if succeeded {
                r == Ok::<(), String>(())
            } else {
                r matches Err(words) && words@ == "security exit "@ + status@ + ": "@ + text::trim(
                    written@,
                )
            },
            Err(e) => r matches Err(words) && words@ == "spawn security: "@ + e@,
        },
{
    match report {
        Ok((succeeded, status, written)) => {
            if succeeded {
                return Ok(());
            }
            let mut words: String = "security exit ".to_owned();
            words.append(status);
            words.append(": ");
            let kept = text::trimmed(written);
            words.append(kept.as_str());
            Err(words)
        },
        Err(e) => {
            let mut words: String = "spawn security: ".to_owned();
            words.append(e);
            Err(words)
        },
    }
}

/// What the check of a certificate says, given whether the tool ran and whether
/// it succeeded. A tool that did not run counts as a failed check.
pub fn check_trust(succeeded: Option<bool>) -> (r: TrustState)
    ensures
        r == if succeeded == Some(true) {
            TrustState::Trusted
        } else {
            TrustState::NotTrusted
        },
{
    match succeeded {
        Some(true) => TrustState::Trusted,
        _ => TrustState::NotTrusted,
    }
}

/// What the user chose, given the answer of the alert; an alert that could not be
/// shown counts as a refusal.
pub fn show_install_prompt(response: Option<isize>) -> (r: UserChoice)
    ensures
        r == if response == Some(1000isize) {
            UserChoice::Install
        } else {
            UserChoice::Cancel
        },
{
    match response {
        Some(code) => if code == FIRST_BUTTON {
            UserChoice::Install
        } else {
            UserChoice::Cancel
        },
        None => UserChoice::Cancel,
    }
}

/// What the user is told before the program ends because its certificate is not
/// trusted.
pub fn show_quit_explanation(reason: &str) -> (r: String)
    ensures
        r@ == "Pouch requires a trusted root certificate to intercept HTTPS traffic. It will now exit. Relaunch Pouch to try again.\n\nDetail: "@
            + reason@,
{
    let mut out: String = "Pouch requires a trusted root certificate to intercept HTTPS traffic. It will now exit. Relaunch Pouch to try again.\n\nDetail: ".to_owned();
    out.append(reason);
    out
}

// ---------------------------------------------------------------------------
// The way to a trusted certificate.

/// What is to be done next to have the certificate trusted.
pub enum TrustFlow {
    /// Check whether it is trusted.
    Check,
    /// Ask the user.
    Ask,
    /// Install it.
    Install,
    /// Check again.
    Recheck,
    /// There is nothing more to do.
    Done(Result<(), MitmError>),
}

/// What came of it.
pub enum TrustEvent {
    Checked(TrustState),
    Chosen(UserChoice),
    Installed(Result<(), String>),
}

/// How the way goes on.
pub open spec fn flow_kind(flow: TrustFlow) -> int {
    match flow {
        TrustFlow::Check => 0,
        TrustFlow::Ask => 1,
        TrustFlow::Install => 2,
        TrustFlow::Recheck => 3,
        TrustFlow::Done(_) => 4,
    }
}

/// Whether `next` follows `flow` when `event` happens: a trusted certificate ends
/// the way well, a refusal, a failed installation and a failed second check end
/// it with the error that says so, and an event that does not belong to the step
/// changes nothing.
pub open spec fn follows(flow: TrustFlow, event: TrustEvent, next: TrustFlow) -> bool {
    match (flow, event) {
        (TrustFlow::Check, TrustEvent::Checked(TrustState::Trusted)) => next == TrustFlow::Done(Ok(())),
        (TrustFlow::Check, TrustEvent::Checked(TrustState::NotTrusted)) => next == TrustFlow::Ask,
        (TrustFlow::Ask, TrustEvent::Chosen(UserChoice::Install)) => next == TrustFlow::Install,
        (TrustFlow::Ask, TrustEvent::Chosen(UserChoice::Cancel)) => next matches TrustFlow::Done(
            Err(MitmError::Trust(words)),
        ) && words@ == "user cancelled CA install"@,
        (TrustFlow::Install, TrustEvent::Installed(Ok(_))) => next == TrustFlow::Recheck,
        (TrustFlow::Install, TrustEvent::Installed(Err(e))) => next matches TrustFlow::Done(
            Err(MitmError::Trust(words)),
        ) && words@ == "install failed: "@ + e@,
        (TrustFlow::Recheck, TrustEvent::Checked(TrustState::Trusted)) => next == TrustFlow::Done(
            Ok(()),
        ),
        (TrustFlow::Recheck, TrustEvent::Checked(TrustState::NotTrusted)) => next matches TrustFlow::Done(
            Err(MitmError::Trust(words)),
        ) && words@ == "install reported success but verify-cert still fails"@,
        _ => next == flow,
    }
}

/// Begin the way to a trusted certificate. Without a certificate file there is
/// none.
pub fn begin_trust(pem_known: bool) -> (r: TrustFlow)
    ensures
        if pem_known {
            r == TrustFlow::Check
        } else {
            r matches TrustFlow::Done(Err(MitmError::Trust(words))) && words@
                == "ca_pem_path unavailable ($HOME unset?)"@
        },
{
    if pem_known {
        TrustFlow::Check
    } else {
        TrustFlow::Done(
            Err(MitmError::Trust("ca_pem_path unavailable ($HOME unset?)".to_owned())),
        )
    }
}

/// Go on the way to a trusted certificate.
pub fn step(flow: TrustFlow, event: TrustEvent) -> (r: TrustFlow)
    ensures
        follows(flow, event, r),
{
    match (flow, event) {
        (TrustFlow::Check, TrustEvent::Checked(TrustState::Trusted)) => TrustFlow::Done(Ok(())),
        (TrustFlow::Check, TrustEvent::Checked(TrustState::NotTrusted)) => TrustFlow::Ask,
        (TrustFlow::Ask, TrustEvent::Chosen(UserChoice::Install)) => TrustFlow::Install,
        (TrustFlow::Ask, TrustEvent::Chosen(UserChoice::Cancel)) => TrustFlow::Done(
            Err(MitmError::Trust("user cancelled CA install".to_owned())),
        ),
        (TrustFlow::Install, TrustEvent::Installed(Ok(_))) => TrustFlow::Recheck,
        (TrustFlow::Install, TrustEvent::Installed(Err(e))) => {
            let mut words: String = "install failed: ".to_owned();
            words.append(e.as_str());
            TrustFlow::Done(Err(MitmError::Trust(words)))
        },
        (TrustFlow::Recheck, TrustEvent::Checked(TrustState::Trusted)) => TrustFlow::Done(Ok(())),
        (TrustFlow::Recheck, TrustEvent::Checked(TrustState::NotTrusted)) => TrustFlow::Done(
            Err(
                MitmError::Trust(
                    "install reported success but verify-cert still fails".to_owned(),
                ),
            ),
        ),
        (other, _) => other,
    }
}

/// The way ends well only where the last check found the certificate trusted.
pub proof fn law_trust_is_always_checked(flow: TrustFlow, event: TrustEvent, next: TrustFlow)
    requires
        follows(flow, event, next),
        !(flow is Done),
        next == TrustFlow::Done(Ok(())),
    ensures
        event == TrustEvent::Checked(TrustState::Trusted),
        flow == TrustFlow::Check || flow == TrustFlow::Recheck,
{
}

/// Every event that belongs to its step brings the way nearer to its end, and a
/// way that has ended stays as it is.
pub proof fn law_trust_ends(flow: TrustFlow, event: TrustEvent, next: TrustFlow)
    requires
        follows(flow, event, next),
    ensures
        flow_kind(flow) < flow_kind(next) || next == flow,
        flow is Done ==> next == flow,
{
}

/// Nothing is installed unless the user chose it.
pub proof fn law_nothing_is_installed_unasked(flow: TrustFlow, event: TrustEvent, next: TrustFlow)
    requires
        follows(flow, event, next),
        next == TrustFlow::Install,
        flow != TrustFlow::Install,
    ensures
        flow == TrustFlow::Ask && event == TrustEvent::Chosen(UserChoice::Install),
{
}

/// Where the way goes from each step: a trusted certificate ends it well, a refusal,
/// a failed installation and a second failed check end it with the error that says
/// so, and everything else leads to the next step.
pub proof fn law_where_the_way_goes(next: TrustFlow, words: String)
    ensures
        follows(TrustFlow::Check, TrustEvent::Checked(TrustState::Trusted), next) <==> next == TrustFlow::Done(Ok(())),
        follows(TrustFlow::Check, TrustEvent::Checked(TrustState::NotTrusted), next) <==> next == TrustFlow::Ask,
        follows(TrustFlow::Ask, TrustEvent::Chosen(UserChoice::Install), next) <==> next == TrustFlow::Install,
        follows(TrustFlow::Ask, TrustEvent::Chosen(UserChoice::Cancel), next) ==> (next matches TrustFlow::Done(
            Err(MitmError::Trust(told)),
        ) && told@ == "user cancelled CA install"@),
        follows(TrustFlow::Install, TrustEvent::Installed(Ok(())), next) <==> next == TrustFlow::Recheck,
        follows(TrustFlow::Install, TrustEvent::Installed(Err(words)), next) ==> (next matches TrustFlow::Done(
            Err(MitmError::Trust(told)),
        ) && told@ == "install failed: "@ + words@),
        follows(TrustFlow::Recheck, TrustEvent::Checked(TrustState::Trusted), next) <==> next == TrustFlow::Done(
            Ok(()),
        ),
        follows(TrustFlow::Recheck, TrustEvent::Checked(TrustState::NotTrusted), next) ==> (next matches TrustFlow::Done(
            Err(MitmError::Trust(told)),
        ) && told@ == "install reported success but verify-cert still fails"@),
{
}

} // verus!
