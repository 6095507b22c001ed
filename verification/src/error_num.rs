use vstd::prelude::*;

verus! {

/// Numbered error categories used across the client, each with a fixed
/// return code and a fixed human-readable message.
#[derive(Debug, PartialEq)]
pub enum ErrorNum {
    /// Invalid parameter error
    InvalidParamError,
    /// DES3 encryption/decryption error
    Des3EncryptError,
    /// AES encryption/decryption error
    AesEncryptError,
    /// ECDSA encryption/decryption error
    EcdsaEncryptError,
    /// Signature error
    SignError,
    /// Error generating signature
    GenerateSignError,
    /// Error generating SQL
    GenerateSqlError,
    /// Error verifying signature
    VerifySignError,
}

impl ErrorNum {
    /// The return code that belongs to each error category.
    pub open spec fn ret_code_spec(self) -> Seq<char> {
        match self {
            ErrorNum::InvalidParamError => "001"@,
            ErrorNum::Des3EncryptError => "002"@,
            ErrorNum::AesEncryptError => "003"@,
            ErrorNum::EcdsaEncryptError => "004"@,
            ErrorNum::SignError => "005"@,
            ErrorNum::GenerateSignError => "006"@,
            ErrorNum::GenerateSqlError => "007"@,
            ErrorNum::VerifySignError => "008"@,
        }
    }

    /// The message that belongs to each error category.
    pub open spec fn ret_msg_spec(self) -> Seq<char> {
        match self {
            ErrorNum::InvalidParamError => "参数错误"@,
            ErrorNum::Des3EncryptError => "DES3加解密错误"@,
            ErrorNum::AesEncryptError => "AES加解密错误"@,
            ErrorNum::EcdsaEncryptError => "ECDSA加解密错误"@,
            ErrorNum::SignError => "签名错误"@,
            ErrorNum::GenerateSignError => "生成签名错误"@,
            ErrorNum::GenerateSqlError => "生成SQL错误"@,
            ErrorNum::VerifySignError => "验证签名错误"@,
        }
    }

    /// Get the error code.
    pub fn get_ret_code(&self) -> (r: &'static str)
        ensures
            r@ == self.ret_code_spec(),
    {
        match self {
            ErrorNum::InvalidParamError => "001",
            ErrorNum::Des3EncryptError => "002",
            ErrorNum::AesEncryptError => "003",
            ErrorNum::EcdsaEncryptError => "004",
            ErrorNum::SignError => "005",
            ErrorNum::GenerateSignError => "006",
            ErrorNum::GenerateSqlError => "007",
            ErrorNum::VerifySignError => "008",
        }
    }

    /// Get the error message.
    pub fn get_ret_msg(&self) -> (r: &'static str)
        ensures
            r@ == self.ret_msg_spec(),
    {
        match self {
            ErrorNum::InvalidParamError => "参数错误",
            ErrorNum::Des3EncryptError => "DES3加解密错误",
            ErrorNum::AesEncryptError => "AES加解密错误",
            ErrorNum::EcdsaEncryptError => "ECDSA加解密错误",
            ErrorNum::SignError => "签名错误",
            ErrorNum::GenerateSignError => "生成签名错误",
            ErrorNum::GenerateSqlError => "生成SQL错误",
            ErrorNum::VerifySignError => "验证签名错误",
        }
    }
}

} // verus!
