use telsync::teldrive::classify_test_connection_status;

#[test]
fn treats_200_as_success() {
    assert!(classify_test_connection_status(200).is_ok());
}

#[test]
fn treats_204_as_invalid_token() {
    let err = classify_test_connection_status(204).err().unwrap();
    assert!(err.contains("access_token"));
}

#[test]
fn treats_401_and_403_as_auth_failures() {
    assert!(classify_test_connection_status(401).err().unwrap().contains("认证失败"));
    assert!(classify_test_connection_status(403).err().unwrap().contains("认证失败"));
}

#[test]
fn other_statuses_name_the_code() {
    assert_eq!(
        classify_test_connection_status(500).err().unwrap(),
        "连接失败，状态码: 500 Internal Server Error"
    );
    assert_eq!(classify_test_connection_status(201).ok().unwrap(), "连接成功");
}
