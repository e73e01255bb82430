//! Two-factor authentication: time-based one-time password settings.
use vstd::prelude::*;
use totp_rs::{Algorithm, TotpUrlError};

verus! {

#[verifier::external_type_specification]
#[verifier::external_body]
pub struct ExTotp(totp_rs::TOTP);

/// Issuer shown for the one-time password.
pub const ISSUER: &'static str = "RustDesk";

/// Tag appended to the issuer for login codes.
pub const TAG_LOGIN: &'static str = "Connection";

/// Hash algorithm of a one-time password.
#[derive(Clone, Copy, Debug, PartialEq, Eq, Structural)]
pub enum TotpAlgorithm {
    Sha1,
    Sha256,
    Sha512,
}

/// The parameters a one-time password is set up with.
#[derive(Clone, Debug)]
pub struct TotpSettings {
    pub algorithm: TotpAlgorithm,
    pub digits: usize,
    pub skew: u8,
    pub step: u64,
    pub secret: Vec<u8>,
    pub issuer: Option<String>,
    pub account_name: String,
}

/// The settings as plain values.
pub struct TotpSettingsView {
    pub algorithm: TotpAlgorithm,
    pub digits: usize,
    pub skew: u8,
    pub step: u64,
    pub secret: Seq<u8>,
    pub issuer: Option<Seq<char>>,
    pub account_name: Seq<char>,
}

impl TotpSettings {
    pub open spec fn view(&self) -> TotpSettingsView {
        TotpSettingsView {
            algorithm: self.algorithm,
            digits: self.digits,
            skew: self.skew,
            step: self.step,
            secret: self.secret@,
            issuer: match self.issuer {
                Some(i) => Some(i@),
                None => None,
            },
            account_name: self.account_name@,
        }
    }
}

/// A one-time password together with the settings it was set up with.
pub struct Totp {
    totp: totp_rs::TOTP,
    settings: TotpSettings,
}

impl Totp {
    /// The settings this one-time password was set up with.
    pub closed spec fn settings(&self) -> TotpSettingsView {
        self.settings.view()
    }

    /// The one-time password.
    pub fn totp(&self) -> &totp_rs::TOTP {
        &self.totp
    }
}

/// Why a one-time password could not be set up.
#[derive(Debug)]
pub enum TotpError {
    /// The number of digits is not between 6 and 8.
    DigitsNumber(usize),
    /// The secret is shorter than 128 bits; its size in bits.
    SecretSize(usize),
    /// The issuer contains a colon.
    Issuer(String),
    /// The account name contains a colon.
    AccountName(String),
    /// Any other rejection.
    Other,
    /// The stored secret could not be decrypted.
    DecryptFailed,
}

/// Calls `totp_rs::TOTP::new` with the settings and keeps them beside the result. Its contract
/// restates the checks that the crate's source makes, in their order: the digit count must be
/// 6 to 8, the secret at least 16 bytes long, and neither the issuer nor the account name may
/// contain a colon; a result is made from exactly these settings. What the `TOTP` computes is
/// not stated.
#[verifier::external_body]
fn totp_new(settings: TotpSettings) -> (r: Result<Totp, TotpError>)
    ensures
        totp_outcome(
            settings.digits,
            settings.secret@,
            settings.view().issuer,
            settings.account_name@,
            r,
        ),
        r matches Ok(t) ==> t.settings() == settings.view(),
{
    let kept = settings.clone();
    let algorithm = match settings.algorithm {
        TotpAlgorithm::Sha1 => Algorithm::SHA1,
        TotpAlgorithm::Sha256 => Algorithm::SHA256,
        TotpAlgorithm::Sha512 => Algorithm::SHA512,
    };
    let TotpSettings { digits, skew, step, secret, issuer, account_name, .. } = settings;
    match totp_rs::TOTP::new(algorithm, digits, skew, step, secret, issuer, account_name) {
        Ok(t) => Ok(Totp { totp: t, settings: kept }),
        Err(TotpUrlError::DigitsNumber(d)) => Err(TotpError::DigitsNumber(d)),
        Err(TotpUrlError::SecretSize(b)) => Err(TotpError::SecretSize(b)),
        Err(TotpUrlError::Issuer(i)) => Err(TotpError::Issuer(i)),
        Err(TotpUrlError::AccountName(n)) => Err(TotpError::AccountName(n)),
        Err(_) => Err(TotpError::Other),
    }
}

/// The outcome of setting up a one-time password with these parameters.
pub open spec fn totp_outcome<T>(
    digits: usize,
    secret: Seq<u8>,
    issuer: Option<Seq<char>>,
    account_name: Seq<char>,
    r: Result<T, TotpError>,
) -> bool {
    if !(6 <= digits <= 8) {
        r matches Err(TotpError::DigitsNumber(d)) && d == digits
    } else if secret.len() < 16 {
        r matches Err(TotpError::SecretSize(b)) && b == secret.len() * 8
    } else if issuer matches Some(i) && i.contains(':') {
        r matches Err(TotpError::Issuer(s)) && s@ == issuer.unwrap()
    } else if account_name.contains(':') {
        r matches Err(TotpError::AccountName(s)) && s@ == account_name
    } else {
        r is Ok
    }
}

/// The issuer of login codes: the issuer name and the login tag separated by a space.
pub open spec fn login_issuer() -> Seq<char> {
    ISSUER@ + " "@ + TAG_LOGIN@
}

/// The login issuer is "RustDesk Connection", which holds no colon.
pub proof fn lemma_login_issuer()
    ensures
        login_issuer() == "RustDesk Connection"@,
        !login_issuer().contains(':'),
{
    reveal_strlit("RustDesk");
    reveal_strlit(" ");
    reveal_strlit("Connection");
    reveal_strlit("RustDesk Connection");
    assert(login_issuer() =~= "RustDesk Connection"@);
}

/// Stored two-factor settings.
#[derive(Debug, Clone, Default)]
pub struct TOTPInfo {
    pub name: String,
    pub secret: Vec<u8>,
    pub digits: usize,
    pub created_at: i64,
}

/// The settings of the login one-time password for `name` with `secret` and `digits`: SHA-1,
/// one step of skew, 30-second steps, issued for login.
pub open spec fn login_settings(name: Seq<char>, secret: Seq<u8>, digits: usize) -> TotpSettingsView {
    TotpSettingsView {
        algorithm: TotpAlgorithm::Sha1,
        digits: digits,
        skew: 1,
        step: 30,
        secret: secret,
        issuer: Some(login_issuer()),
        account_name: name,
    }
}

impl TOTPInfo {
    /// The settings of the login one-time password these stored settings describe.
    pub fn totp_settings(&self) -> (r: TotpSettings)
        ensures
            r.view() == login_settings(self.name@, self.secret@, self.digits),
    {
        let mut issuer = String::from_str(ISSUER);
        issuer.append(" ");
        issuer.append(TAG_LOGIN);
        TotpSettings {
            algorithm: TotpAlgorithm::Sha1,
            digits: self.digits,
            skew: 1,
            step: 30,
            secret: self.secret.clone(),
            issuer: Some(issuer),
            account_name: String::from_str(self.name.as_str()),
        }
    }

    /// Sets up the SHA-1 one-time password of these settings (one step of skew, 30-second
    /// steps), issued for login and named after the account.
    pub fn new_totp(&self) -> (r: Result<Totp, TotpError>)
        ensures
            totp_outcome(self.digits, self.secret@, Some(login_issuer()), self.name@, r),
            r is Ok <==> (6 <= self.digits <= 8 && self.secret@.len() >= 16 && !self.name@.contains(
                ':',
            )),
            r matches Ok(t) ==> t.settings() == login_settings(self.name@, self.secret@, self.digits),
    {
        proof {
            lemma_login_issuer();
        }
        totp_new(self.totp_settings())
    }

    /// Sets up the one-time password from parsed settings `info` whose secret was decrypted into
    /// `secret` (`success` tells whether decryption worked).
    pub fn from_decrypted(info: TOTPInfo, secret: Vec<u8>, success: bool) -> (r: Result<Totp, TotpError>)
        ensures
            !success ==> r matches Err(TotpError::DecryptFailed),
            success ==> totp_outcome(info.digits, secret@, Some(login_issuer()), info.name@, r),
            r matches Ok(t) ==> t.settings() == login_settings(info.name@, secret@, info.digits),
    {
        if success {
            let mut info = info;
            info.secret = secret;
            info.new_totp()
        } else {
            Err(TotpError::DecryptFailed)
        }
    }
}

/// The stored two-factor setting is usable: it parsed, its secret decrypted, and the one-time
/// password it describes can be set up.
pub open spec fn usable_2fa(parsed: Option<TOTPInfo>, secret: Seq<u8>, success: bool) -> bool {
    match parsed {
        None => false,
        Some(info) => success && 6 <= info.digits <= 8 && secret.len() >= 16 && !info.name@.contains(
            ':',
        ),
    }
}

/// The one-time password of the stored two-factor setting: `parsed` is the setting read from its
/// text (`None` when that failed) and `secret`, `success` what decrypting its secret gave.
pub fn get_2fa(parsed: Option<TOTPInfo>, secret: Vec<u8>, success: bool) -> (r: Option<Totp>)
    ensures
        r is Some <==> usable_2fa(parsed, secret@, success),
        r matches Some(t) ==> t.settings() == login_settings(parsed.unwrap().name@, secret@, parsed.unwrap().digits),
{
    proof {
        lemma_login_issuer();
    }
    match parsed {
        None => None,
        Some(info) => match TOTPInfo::from_decrypted(info, secret, success) {
            Ok(t) => Some(t),
            Err(_) => None,
        },
    }
}

} // verus!
