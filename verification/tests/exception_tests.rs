use blockchain_rs::error_num::ErrorNum;

#[test]
fn test_error_num() {
    let error = ErrorNum::InvalidParamError;
    assert_eq!(error.get_ret_code(), "001");
    assert_eq!(error.get_ret_msg(), "参数错误");

    let error = ErrorNum::Des3EncryptError;
    assert_eq!(error.get_ret_code(), "002");
    assert_eq!(error.get_ret_msg(), "DES3加解密错误");

    let error = ErrorNum::AesEncryptError;
    assert_eq!(error.get_ret_code(), "003");
    assert_eq!(error.get_ret_msg(), "AES加解密错误");

    let error = ErrorNum::EcdsaEncryptError;
    assert_eq!(error.get_ret_code(), "004");
    assert_eq!(error.get_ret_msg(), "ECDSA加解密错误");

    let error = ErrorNum::SignError;
    assert_eq!(error.get_ret_code(), "005");
    assert_eq!(error.get_ret_msg(), "签名错误");

    let error = ErrorNum::GenerateSignError;
    assert_eq!(error.get_ret_code(), "006");
    assert_eq!(error.get_ret_msg(), "生成签名错误");

    let error = ErrorNum::GenerateSqlError;
    assert_eq!(error.get_ret_code(), "007");
    assert_eq!(error.get_ret_msg(), "生成SQL错误");

    let error = ErrorNum::VerifySignError;
    assert_eq!(error.get_ret_code(), "008");
    assert_eq!(error.get_ret_msg(), "验证签名错误");
}
