//! Account-level sync encryption. This runtime keeps only private `.moc`
//! container encryption: every account-key operation is refused with the
//! same message, nothing is ever unlocked, and no sync payload is treated
//! as encrypted.

use vstd::prelude::*;

verus! {

pub open spec fn local_only_message() -> Seq<char> {
    "账号级同步加密已禁用：当前 MOMO Core 只保留 .moc 私有容器加密"@
}

fn local_only() -> (message: String)
    ensures
        message@ == local_only_message(),
{
    String::from_str("账号级同步加密已禁用：当前 MOMO Core 只保留 .moc 私有容器加密")
}

pub fn crypto_setup_account_keys(passphrase: String) -> (result: Result<String, String>)
    ensures
        result matches Err(m) && m@ == local_only_message(),
{
    Err(local_only())
}

pub fn crypto_unlock_account_keys(bundle_json: String, passphrase: String) -> (result: Result<(), String>)
    ensures
        result matches Err(m) && m@ == local_only_message(),
{
    Err(local_only())
}

pub fn crypto_unlock_with_recovery(bundle_json: String, recovery_key: String) -> (result: Result<(), String>)
    ensures
        result matches Err(m) && m@ == local_only_message(),
{
    Err(local_only())
}

pub fn crypto_rewrap_account_keys(
    bundle_json: String,
    old_passphrase: String,
    new_passphrase: String,
) -> (result: Result<String, String>)
    ensures
        result matches Err(m) && m@ == local_only_message(),
{
    Err(local_only())
}

pub fn crypto_reset_with_recovery(
    bundle_json: String,
    recovery_key: String,
    new_passphrase: String,
) -> (result: Result<String, String>)
    ensures
        result matches Err(m) && m@ == local_only_message(),
{
    Err(local_only())
}

pub fn crypto_recovery_verifier(recovery_key: String) -> (result: Result<String, String>)
    ensures
        result matches Err(m) && m@ == local_only_message(),
{
    Err(local_only())
}

/// Locking has nothing to do: no account keys are ever held.
pub fn crypto_lock() {
}

pub fn crypto_is_unlocked() -> (unlocked: bool)
    ensures
        !unlocked,
{
    false
}

pub fn crypto_payload_is_encrypted(payload_json: String) -> (result: Result<bool, String>)
    ensures
        result == Ok::<bool, String>(false),
{
    Ok(false)
}

pub fn crypto_encrypt_sync_payload(
    object_id: String,
    category: String,
    schema_version: i32,
    revision: i64,
    plaintext_json: String,
) -> (result: Result<String, String>)
    ensures
        result matches Err(m) && m@ == local_only_message(),
{
    Err(local_only())
}

} // verus!
