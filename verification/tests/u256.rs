use autobahn_dex::u256::to_u256;

#[test]
fn test_to_u256() {
    {
        let from = 0;
        let result = to_u256(from);
        let back = result.as_u128();
        assert_eq!(from, back);
    }
    {
        let from = 1;
        let result = to_u256(from);
        let back = result.as_u128();
        assert_eq!(from, back);
    }
    {
        let from = 1324342342433342342;
        let result = to_u256(from);
        let back = result.as_u128();
        assert_eq!(from, back);
    }
    {
        let from = u64::MAX as u128;
        let result = to_u256(from);
        let back = result.as_u128();
        assert_eq!(from, back);
    }
    {
        let from = u64::MAX as u128 + 1;
        let result = to_u256(from);
        let back = result.as_u128();
        assert_eq!(from, back);
    }
    {
        let from = u64::MAX as u128 + 2;
        let result = to_u256(from);
        let back = result.as_u128();
        assert_eq!(from, back);
    }
    {
        let from = u128::MAX;
        let result = to_u256(from);
        let back = result.as_u128();
        assert_eq!(from, back);
    }
}
