use music_librarian::menu::{transfer_supported, Actions, Services};

#[test]
fn the_actions_have_their_words() {
    assert_eq!(Actions::all(), vec![Actions::TransferLibrary, Actions::TransferPlaylist]);
    assert_eq!(Actions::TransferLibrary.label(), "Transfer music library");
    assert_eq!(Actions::TransferPlaylist.label(), "Transfer music playlist");
}

#[test]
fn the_services_have_their_names() {
    assert_eq!(Services::all(), vec![Services::Itunes, Services::Spotify]);
    assert_eq!(Services::Itunes.label(), "Itunes");
    assert_eq!(Services::Spotify.label(), "Spotify");
}

#[test]
fn a_library_goes_to_another_service() {
    assert_eq!(Services::Itunes.destinations(), vec![Services::Spotify]);
    assert_eq!(Services::Spotify.destinations(), vec![Services::Itunes]);
    assert_eq!(Services::Itunes.destination_prompt(), "From Itunes ===> To");
    assert_eq!(Services::Spotify.destination_prompt(), "From Spotify ===> To");
}

#[test]
fn only_the_transfer_from_itunes_to_spotify_is_supported() {
    assert!(transfer_supported(Services::Itunes, Services::Spotify));
    assert!(!transfer_supported(Services::Spotify, Services::Itunes));
    assert!(!transfer_supported(Services::Itunes, Services::Itunes));
    assert!(!transfer_supported(Services::Spotify, Services::Spotify));
}
