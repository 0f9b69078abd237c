use display_distributor::error::Error;
use display_distributor::message::{ClientMessage, ServerMessage, MESSAGE_LEN};

fn all_requests() -> Vec<ClientMessage> {
    vec![ClientMessage::RequestDisplays, ClientMessage::ReleaseDisplays]
}

fn all_responses() -> Vec<ServerMessage> {
    vec![
        ServerMessage::LeaseGranted,
        ServerMessage::LeaseRevoked,
        ServerMessage::LeaseNotFound,
        ServerMessage::NoPermission,
        ServerMessage::SeatBusy,
        ServerMessage::NoDisplaysForSeat,
    ]
}

#[test]
fn requests_round_trip() {
    for message in all_requests() {
        let bytes = message.encode().unwrap();
        assert_eq!(bytes.len(), MESSAGE_LEN);
        assert_eq!(ClientMessage::decode(&bytes), Ok(message));
    }
}

#[test]
fn responses_round_trip() {
    for message in all_responses() {
        let bytes = message.encode().unwrap();
        assert_eq!(bytes.len(), MESSAGE_LEN);
        assert_eq!(ServerMessage::decode(&bytes), Ok(message));
    }
}

#[test]
fn messages_are_their_index_in_four_bytes() {
    assert_eq!(ClientMessage::RequestDisplays.encode(), Ok(vec![0, 0, 0, 0]));
    assert_eq!(ClientMessage::ReleaseDisplays.encode(), Ok(vec![1, 0, 0, 0]));
    assert_eq!(ServerMessage::LeaseGranted.encode(), Ok(vec![0, 0, 0, 0]));
    assert_eq!(ServerMessage::LeaseRevoked.encode(), Ok(vec![1, 0, 0, 0]));
    assert_eq!(ServerMessage::LeaseNotFound.encode(), Ok(vec![2, 0, 0, 0]));
    assert_eq!(ServerMessage::NoPermission.encode(), Ok(vec![3, 0, 0, 0]));
    assert_eq!(ServerMessage::SeatBusy.encode(), Ok(vec![4, 0, 0, 0]));
    assert_eq!(ServerMessage::NoDisplaysForSeat.encode(), Ok(vec![5, 0, 0, 0]));
}

#[test]
fn index_and_from_index_agree() {
    for message in all_requests() {
        assert_eq!(ClientMessage::from_index(message.index()), Some(message));
    }
    for message in all_responses() {
        assert_eq!(ServerMessage::from_index(message.index()), Some(message));
    }
    assert_eq!(ClientMessage::from_index(2), None);
    assert_eq!(ServerMessage::from_index(6), None);
    assert_eq!(ServerMessage::from_index(u32::MAX), None);
}

#[test]
fn decode_reads_little_endian() {
    assert_eq!(ClientMessage::decode(&[1, 0, 0, 0]), Ok(ClientMessage::ReleaseDisplays));
    assert_eq!(ClientMessage::decode(&[0, 0, 0, 1]), Err(Error::PeerBadMsg));
    assert_eq!(ClientMessage::decode(&[0, 1, 0, 0]), Err(Error::PeerBadMsg));
    assert_eq!(ServerMessage::decode(&[4, 0, 0, 0]), Ok(ServerMessage::SeatBusy));
    assert_eq!(ServerMessage::decode(&[0, 0, 0, 4]), Err(Error::PeerBadMsg));
}

#[test]
fn decode_turns_down_short_input() {
    assert_eq!(ClientMessage::decode(&[]), Err(Error::PeerBadMsg));
    assert_eq!(ClientMessage::decode(&[0]), Err(Error::PeerBadMsg));
    assert_eq!(ClientMessage::decode(&[0, 0, 0]), Err(Error::PeerBadMsg));
    assert_eq!(ServerMessage::decode(&[1, 0, 0]), Err(Error::PeerBadMsg));
}

#[test]
fn decode_turns_down_unknown_variants() {
    assert_eq!(ClientMessage::decode(&[2, 0, 0, 0]), Err(Error::PeerBadMsg));
    assert_eq!(ClientMessage::decode(&[255, 255, 255, 255]), Err(Error::PeerBadMsg));
    assert_eq!(ServerMessage::decode(&[6, 0, 0, 0]), Err(Error::PeerBadMsg));
}

#[test]
fn decode_lets_further_bytes_be() {
    assert_eq!(ClientMessage::decode(&[0, 0, 0, 0, 9, 9]), Ok(ClientMessage::RequestDisplays));
    assert_eq!(ServerMessage::decode(&[5, 0, 0, 0, 1]), Ok(ServerMessage::NoDisplaysForSeat));
}
