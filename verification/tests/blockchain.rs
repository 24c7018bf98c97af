use blockchat::accounts::{Account, Role};
use blockchat::blockchain::{Block, BlockChain, ChainError};
use blockchat::config::Profile;
use blockchat::crypto::{PrivateKey, PublicKey};
use blockchat::events::{Data, Event};

use rand::Rng;


/// RSA-2048 key pairs made ahead of time: modulus, private exponent and the
/// two primes, in hexadecimal; the public exponent is 65537.
const KEYS: [[&str; 4]; 3] = [
    [
        "dc841fca7eb22c1597d852ff708b28c1f28514fcd4ad94abb2587e169ef74c9c5da14d8569476b5ffbf68c3bcff4ff04c58fb8aa834f3bff2da72ee82a917b03eca62faa7d07eb8c9c35eca27640c97f68041a955b16ebc691bf62d42a5b18fef88786b6c32402850bebf5d79d833d738331c40e68a087e2565ab0fc631ce922f94f5534573642f3417648f8cca16b2ee2eb203544076b189cb05eb1fba4c2c9ccc333568652406f74191985d0f20f5d23e49a6c48f3a594d8a0652a38e2750c06e8ea8bbc81e9f33b5941766c876be2c8bed346ce5b7beaff2c5d5ce9921912a1deb1516b2293e66052d5e1d68e24acc807a6f15fda58df0fff1a3cfd9575f5",
        "43f2aa6118fd09bc759780ab99202824eaf7bae9d516cf72c077a8128c552354233daac76b1348b0c0d0cd91389903639304a0205a69b5d1015e3c83e969fe7fcd11c02a467084524568104c5727cb6ee8bc2afcce9e97740e40ecd0f7642ea5922b20857c47c24700cf6a674fefbaa5b74d445e343b12e3d93c04c120412e4cb7e9061784e4a405acd186454e64d14716644c0bf06d3c86fa1814d917cf8876ab315eca1b7bb7445071187e85cdfa72cf3931cac295c9175d52a9d04aabd2d05d02acda181436b25c964d34843c8806966503dbe44a310935c58e3452ec35684b29bfe8d8a1e1e3c4d77192ba6f76aae2012391ecda06bc2a8700e06a9add01",
        "fa708d735779ebb172611410c418f91adcb3499de925cb48e7e1028f70a43eea0d5ac6a573652dee8479ab3819b9a7789051a957837d94ce288624ddf7206053380f060ce870ff6542aed2f1adb4496e55dc2f84b002f5a87da7ed4322790b914ec8611d04252bb999c525d9a5bb0eabb7c1261d98659600c875e4d64c8f9721",
        "e1697e0af1bcfd0b158d4b897ac6df1a168dceee6a34a59063a9dfe915128356ca14db98d4fd02aeadaf3071ca6eaf88921a78c0566749c8681f3b4402b9f9634a7d609804bdf2a91bf9bdeac6f9b85bfa0d8919831a0f8249592f2525bce2f4664118ecdf2230667f5e86181ceb4f7a38ddf2ce3f20be39de1fd1bddd874855",
    ],
    [
        "a6c6e3f41facb6dc258d0c84f84ecc18ec356f5b1e8da12b07f071cd13b88962d79685c3956ad53cdea4c1040264cb12950f90149c574e165f136f935ad023d79aa3f336e344a7578e92a53b091c275e7f6e385d3be4802f4d83b60caee0c40ed8454cfe7f9b4625cc846c84a6ee284d5796b74450ec48faa74dd50aa20672d879b8f28a4de059c7b517749cdb2d12d3a48758fd3c026ca23752dee79f757fc40d8b53876e787e497b43df60d23909cd9e92a5bda725eb784c3c4facbdfd73be2f53d756a63712279ded08d0fde2aa30da4a2fb353627860113ddfcc6630d1e564f138f0ae3a907ec2032b9a31078b65c23d054649b35a5c263601d1114f0cbd",
        "bac420a35295687240db241a04b8b9776f8ea795b331883b5838bc389ccd1b8dc5409babdbb837f462a0be466f27d1028e4b4f5ec5763fcc6dcca636ae8c48973a664008479aaa8c32eda67be647d10ed245ec78fc8977c3815aee946582f00c6fc5abe395a39d7ad6fdb5491867bc5a60ac37b019af824ab0f148930fbf88fb7506122fd8b2507e58f02e004cc1ea270722fe2bf2a84dc211323d96f986ee2462acfaac81e30f1452cf275c2a282dfedee63cb3d0a61deeec53cd3bc9bee8ab2eef5f3d6a5f3fa60a1e100473d0ad75f25e224430ce7f1eb1e2a0576d333c028da1671683d387465891d64cae6056ea36123c1ae73eec8d67096510e1e0ba1",
        "ccfbbc486defadda98bfc318e021683d4af41a203efef56f1e76768833f719617c14980806892dd69a29f39cd149fa89a50a4880a0aed2745314fcdb6c1f3c7d9afe5448ae42fe8c00097f811b4312d9b64dbb90c891ce45e155d9ab9cbea55ab5f912b4c0d81e5ab83115ef1c07bf807188c5dfb748b9a9e10b17d318028779",
        "d048e103d4fe6cb0f87640c723636e649e68de0968fda8f22356946e2f483cd2affcaf77287b00c8430916328ec9952f47b45b95b7675d40e1c27f5afa7cfc8f9468a93d5f9aa259e4f9efc52f2d3b744620a879fc52b3a7d4430ac7f234b1f687c6e897a403ebc59bca7150350b62efb4d6e5e43e7ffd5a864629b0ee93ea65",
    ],
    [
        "be43716911e45bf86eb583dd521d49a5250641501fbb76288c1e30c620d0daf6075374e7d44bfc72a8787bb1932b45760256aae6590859227c35aedab8be7ccf32433ca0a4db84c7b13ad81202e48852d8abbddde9e82a9e443512b19c49f6839f2ecb565d4944ef2baceaf6643384194df44dea932a7b9c9960c55cae5c83d0413bbfcd5d201c6fa95d74e2377f39a7bf6dce4a0aa6b66fed0f41f630384f77953bf044cf75d64ddcbdf56516f891f9b73d4701874bdeb6b3c0b6672041b5bc0e93b93584a57ed743da394d2b2e0b1d8c6ec429e275bfe1fbd2111a5db774529ed1172554e7e186d93bd44833dbb97cbf0f9830b49da94fd4bb99809b16cba7",
        "3acb64946f6efdecbb6964225469b08453f8a6de37b01a4755654ef52ad6df92ff988e9bc542e5f4189382c5d110a21a61869eb127fa28713ba8eb2bb3c349964d95f17a42f78304a283e89948438ecceb1fc7407833c257be04188ec21929106b746e6975d25a76fe2c253f969f44c6fd0bedb7fb5a39709f0504782b797351b291bd764ff5c20b9fe3a68cda4779f39497cade21384237047cb08cafee52f7ef7b1de094cfdab7323d922cfefeed188720ee996def82dd528fb3f7578a4059df58c0f4714b7d8dc015d4e7751d3d3222c0ae4dd867765cd15c46ae200d0f112ce4da6542ed62a86073b78c98a2d82d2d434864a1c1f87865ef6038a1fa3321",
        "c8a3b5bf37fdf84db1844faae92b07099367e3a9fc93921e0da77abe11d76f9ab7e10ced2aa6320e33abafdcfa7a2160171862f8a441b43e1814f8058a8c56fcbc6ef3970efa0c29165d3938bb9af9ba54fa6c0d435091a568c0256bc751aaea445fdfc0ee8b94b76a5ff3a1370919242fb6b30d238c25caf8c62905c777af9d",
        "f2c2d0aa6ac1f1f4f155b398466fda4bdfbb4adf68c122cfe4504dccde60d67ae4b2d9b04c11542b4580d8f0cff1514efdeb7ae273ca17b3a5c53ef98856f874ff49d4abee7721422793e48eabe3215f93a54695c96638587d1ca3b35b3fd33d393f51dc448d12bde622b756a40a96d6ffe4fbe4b09636953610907c6ab7df13",
    ],
];

fn hex_bytes(s: &str) -> Vec<u8> {
    let s = if s.len() % 2 == 1 { format!("0{}", s) } else { s.to_string() };
    (0..s.len())
        .step_by(2)
        .map(|i| u8::from_str_radix(&s[i..i + 2], 16).unwrap())
        .collect()
}

/// The library's form of the `i`-th prepared key pair.
fn key_pair(i: usize) -> (PublicKey, PrivateKey) {
    let [n, d, p, q] = KEYS[i];
    let public = PublicKey {
        n: hex_bytes(n),
        e: vec![1, 0, 1],
    };
    let private = PrivateKey::from_parts(
        hex_bytes(n),
        vec![1, 0, 1],
        hex_bytes(d),
        vec![hex_bytes(p), hex_bytes(q)],
    )
    .expect("two primes");
    (public, private)
}

fn account_with(i: usize) -> Account {
    let mut rng = rand::thread_rng();
    let id = rng.gen();
    let (pub_key, priv_key) = key_pair(i);
    Account::new(
        Role::User,
        Profile::new(None, None, None, None, None),
        pub_key,
        priv_key,
        id,
    )
}

// Basic tests

#[test]
fn create_blockchain() {
    let bc: BlockChain = BlockChain::new(None);
    assert!(bc.chain.len() == 0);
    assert!(bc.users.len() == 0);
}

#[test]
fn tests_create_blockchain() {
    let bc: BlockChain = BlockChain::new(None);
    assert!(bc.chain.len() == 0);
    assert!(bc.users.len() == 0);
}

#[test]
fn create_event() {
    let event: Event = Event::new(10, Data::GroupMessage(String::from("Hello")));
    assert_eq!(event.made_by, 10);
    match event.data {
        Data::GroupMessage(m) => assert_eq!(m, String::from("Hello")),
        _ => unreachable!(),
    };
}

#[test]
fn tests_create_event() {
    let event: Event = Event::new(10, Data::GroupMessage(String::from("Hello")));
    assert_eq!(event.made_by, 10);
    match event.data {
        Data::GroupMessage(m) => assert_eq!(m, String::from("Hello")),
        _ => unreachable!(),
    };
}

#[test]
fn add_event_to_block() {
    let mut block: Block = Block::new(None);
    let event: Event = Event::new(10, Data::GroupMessage(String::from("Hello")));
    block.add_event(event);
    assert!(block.get_event_count() == 1);
}

#[test]
fn tests_add_event_to_block() {
    let mut block: Block = Block::new(None);
    let event: Event = Event::new(10, Data::GroupMessage(String::from("Hello")));
    block.add_event(event);
    assert!(block.get_event_count() == 1);
}

#[test]
fn add_block_to_blockchain() {
    let mut bc: BlockChain = BlockChain::new(None);
    let mut block: Block = Block::new(None);
    let event: Event = Event::new(10, Data::GroupMessage(String::from("Hello")));
    block.add_event(event);
    assert!(block.get_event_count() == 1);
    assert!(bc.append(block).is_ok());
    assert!(bc.chain.len() == 1);
}

#[test]
fn tests_add_block_to_blockchain() {
    let mut bc: BlockChain = BlockChain::new(None);
    let mut block: Block = Block::new(None);
    let event: Event = Event::new(10, Data::GroupMessage(String::from("Hello")));
    block.add_event(event);
    assert!(block.get_event_count() == 1);
    assert!(bc.append(block).is_ok());
    assert!(bc.chain.len() == 1);
}

// Crypto tests

#[test]
fn sign_event_with_key() {
    let user = account_with(0);
    let mut event: Event = Event::new(user.id, Data::GroupMessage(String::from("Hello")));
    user.sign_event(&mut event);
    assert!(event.verify_sign(&user.pub_key));
}

#[test]
fn tests_sign_event_with_key() {
    let user = account_with(0);
    let mut event: Event = Event::new(user.id, Data::GroupMessage(String::from("Hello")));
    assert!(user.try_sign_event(&mut event));
    assert!(event.verify_sign(&user.pub_key));
}

#[test]
fn sign_message_with_wrong_key() {
    let user = account_with(0);
    let user1 = account_with(1);
    let mut event: Event = Event::new(user.id, Data::GroupMessage(String::from("Hello")));
    user1.sign_event(&mut event);
    assert!(!event.verify_sign(&user.pub_key));
}

#[test]
fn tests_sign_message_with_wrong_key() {
    let user = account_with(0);
    let user1 = account_with(1);
    let mut event: Event = Event::new(user.id, Data::GroupMessage(String::from("Hello")));
    assert!(user1.try_sign_event(&mut event));
    assert!(!event.verify_sign(&user.pub_key));
}

// Chain rules

#[test]
fn last_hash_follows_appends() {
    let mut bc = BlockChain::new(Some(String::from("chain.bin")));
    assert_eq!(bc.last_hash(), None);
    let mut first = Block::new(None);
    first.update_hash();
    let first_hash = first.hash.clone();
    assert_eq!(bc.append(first), Ok(true));
    assert_eq!(bc.last_hash(), first_hash);
    let mut second = Block::new(bc.last_hash());
    second.add_event(Event::new(1, Data::GroupMessage(String::from("next"))));
    let second_hash = second.hash.clone();
    assert_eq!(bc.append(second), Ok(true));
    assert_eq!(bc.last_hash(), second_hash);
    assert_eq!(bc.len(), 2);
    assert!(bc.validate_chain().is_ok());
}

#[test]
fn append_refuses_block_without_hash() {
    let mut bc = BlockChain::new(None);
    let block = Block::new(None);
    assert_eq!(bc.append(block), Err(ChainError::OwnHash));
    assert_eq!(bc.len(), 0);
}

#[test]
fn append_refuses_wrong_predecessor() {
    let mut bc = BlockChain::new(None);
    let mut block = Block::new(Some(String::from("not the last hash")));
    block.update_hash();
    assert_eq!(bc.append(block), Err(ChainError::PrevHash));
    assert_eq!(bc.len(), 0);
}

#[test]
fn append_leaves_out_block_with_bad_signature() {
    let user = account_with(0);
    let other = account_with(1);
    let mut bc = BlockChain::new(None);
    bc.new_user(user.id, user.pub_key.duplicate());
    let mut event = Event::new(user.id, Data::GroupMessage(String::from("Hello")));
    assert!(other.try_sign_event(&mut event));
    let mut block = Block::new(None);
    block.add_event(event);
    assert_eq!(bc.append(block), Ok(false));
    assert_eq!(bc.len(), 0);
}

#[test]
fn append_accepts_block_with_good_signature() {
    let user = account_with(0);
    let mut bc = BlockChain::new(None);
    bc.new_user(user.id, user.pub_key.duplicate());
    let event = user
        .new_event(Data::GroupMessage(String::from("Hello")))
        .expect("failed to sign");
    let mut block = Block::new(None);
    block.add_event(event);
    assert_eq!(bc.append(block), Ok(true));
    assert_eq!(bc.len(), 1);
}

#[test]
fn block_hash_tracks_changes() {
    let mut block = Block::new(None);
    assert!(!block.verify_hash());
    block.add_event(Event::new(3, Data::IndividualMessage(7, vec![1, 2, 3])));
    assert!(block.verify_hash());
    block.set_nonce(42);
    assert_eq!(block.nonce, 42);
    assert!(block.verify_hash());
    block.nonce = 43;
    assert!(!block.verify_hash());
    block.update_hash();
    assert!(block.verify_hash());
    let events = vec![
        Event::new(1, Data::GroupMessage(String::from("a"))),
        Event::new(2, Data::GroupMessage(String::from("b"))),
    ];
    block.add_events(events);
    assert_eq!(block.get_event_count(), 3);
    assert!(block.verify_hash());
    assert!(matches!(block.events[0].data, Data::IndividualMessage(7, _)));
    assert!(matches!(&block.events[2].data, Data::GroupMessage(s) if s == "b"));
}

#[test]
fn block_hash_is_hex_sha3() {
    let block = Block {
        events: Vec::new(),
        prev_hash: None,
        hash: None,
        nonce: 0,
        created_at: blockchat::crypto::Timestamp { secs: 0, nanos: 0 },
    };
    let h = block.calculate_hash();
    assert_eq!(h.len(), 64);
    assert!(h.chars().all(|c| c.is_ascii_hexdigit() && !c.is_ascii_uppercase()));
    // A block's hash is computed over its events, predecessor and nonce only.
    let mut later = block.duplicate();
    later.created_at = blockchat::crypto::Timestamp { secs: 5, nanos: 6 };
    assert_eq!(later.calculate_hash(), h);
    later.nonce = 1;
    assert_ne!(later.calculate_hash(), h);
}

#[test]
fn validate_chain_reports_first_bad_block() {
    let mut bc = BlockChain::new(None);
    let mut first = Block::new(None);
    first.update_hash();
    assert_eq!(bc.append(first), Ok(true));
    let mut second = Block::new(bc.last_hash());
    second.update_hash();
    assert_eq!(bc.append(second), Ok(true));
    assert_eq!(bc.validate_chain(), Ok(()));

    bc.chain[1].prev_hash = Some(String::from("elsewhere"));
    bc.chain[1].update_hash();
    assert_eq!(bc.validate_chain(), Err(ChainError::PrevHashAt(1)));

    bc.chain[0].prev_hash = Some(String::from("before the start"));
    bc.chain[0].update_hash();
    assert_eq!(bc.validate_chain(), Err(ChainError::StartingPrevHash));

    bc.chain[0].nonce += 1;
    assert_eq!(bc.validate_chain(), Err(ChainError::OwnHash));
}

#[test]
fn contains_and_in_chain() {
    let mut bc = BlockChain::new(None);
    let event = Event::new(4, Data::GroupMessage(String::from("kept")));
    let mut block = Block::new(None);
    block.add_event(event.duplicate());
    let copy = block.duplicate();
    assert!(!bc.in_chain(&copy));
    assert!(!bc.contains(&event));
    assert_eq!(bc.append(block), Ok(true));
    assert!(bc.in_chain(&copy));
    assert!(bc.contains(&event));
}

#[test]
fn chain_overlap_counts_shared_prefix() {
    let mut a = BlockChain::new(None);
    let mut first = Block::new(None);
    first.update_hash();
    let first_copy = first.duplicate();
    assert_eq!(a.append(first), Ok(true));
    let mut b = a.duplicate();
    assert_eq!(a.chain_overlap_len(&b), 1);
    assert_eq!(a.chain_overlap_len(&a), a.len());

    let mut second_a = Block::new(a.last_hash());
    second_a.update_hash();
    let mut second_b = Block::new(b.last_hash());
    second_b.set_nonce(second_a.nonce.wrapping_add(1));
    assert_eq!(a.append(second_a), Ok(true));
    assert_eq!(b.append(second_b), Ok(true));
    assert_eq!(a.chain_overlap_len(&b), 1);
    assert_eq!(b.chain_overlap_len(&a), 1);
    assert!(a.in_chain(&first_copy));

    let empty = BlockChain::new(None);
    assert_eq!(empty.chain_overlap_len(&a), 0);
    assert_eq!(a.chain_overlap_len(&empty), 0);
}

#[test]
fn save_location_defaults_and_changes() {
    let mut bc = BlockChain::new(None);
    assert_eq!(bc.save_location(), Some(String::from("./blockchain.bin")));
    bc.set_save_location(Some(String::from("other.bin")));
    assert_eq!(bc.save_location(), Some(String::from("other.bin")));
    let named = BlockChain::new(Some(String::from("mine.bin")));
    assert_eq!(named.save_location(), Some(String::from("mine.bin")));
}

#[test]
fn execute_refuses_signers_it_does_not_know() {
    let user = account_with(0);
    let mut users = std::collections::HashMap::new();
    let mut block = Block::new(None);
    block.add_event(Event::new(9, Data::GroupMessage(String::from("unsigned"))));
    assert!(block.execute(&users));
    let signed = user.new_event(Data::GroupMessage(String::from("signed"))).unwrap();
    assert!(!signed.execute(None));
    assert!(signed.execute(Some(&user.pub_key)));
    block.add_event(signed);
    assert!(!block.execute(&users));
    users.insert(user.id, user.pub_key.duplicate());
    assert!(block.execute(&users));
}

#[test]
fn append_leaves_out_block_signed_by_a_stranger() {
    let user = account_with(0);
    let mut bc = BlockChain::new(None);
    let event = user
        .new_event(Data::GroupMessage(String::from("Hello")))
        .expect("failed to sign");
    let mut block = Block::new(None);
    block.add_event(event);
    assert_eq!(bc.append(block), Ok(false));
    assert_eq!(bc.len(), 0);
}

fn event_with_nonce(data: Data, nonce: u128) -> Event {
    Event {
        made_by: 1,
        data,
        nonce,
        signature: None,
        created_at: blockchat::crypto::Timestamp { secs: 0, nanos: 0 },
    }
}

#[test]
fn event_hash_is_sha3_of_its_debug_text() {
    // SHA3-256 of `(GroupMessage("hi"), 5)`, in hexadecimal.
    let e = event_with_nonce(Data::GroupMessage(String::from("hi")), 5);
    assert_eq!(
        e.calculate_hash(),
        b"495f3208431569b4dbaabf9d36dfcc456a0bd5c5f18c75558c5785e18ef703c4".to_vec()
    );
    // SHA3-256 of `(IndividualMessage(7, [1, 2, 3]), 42)`.
    let e = event_with_nonce(Data::IndividualMessage(7, vec![1, 2, 3]), 42);
    assert_eq!(
        e.calculate_hash(),
        b"145b947f54664366bd36ee6be23789f63e3193cacaa8635c6f65736f30498c17".to_vec()
    );
}

#[test]
fn block_hash_is_sha3_of_event_hashes_and_link() {
    // SHA3-256 of `(None, 0)`.
    let empty = Block {
        events: Vec::new(),
        prev_hash: None,
        hash: None,
        nonce: 0,
        created_at: blockchat::crypto::Timestamp { secs: 0, nanos: 0 },
    };
    assert_eq!(
        empty.calculate_hash(),
        "3aa62f9aaf1cb72395ef0ace073c771e29390755b25c62449cba426cec1e9e64"
    );
    // SHA3-256 of the event's hash followed by `(Some("ab"), 9)`.
    let block = Block {
        events: vec![event_with_nonce(Data::GroupMessage(String::from("hi")), 5)],
        prev_hash: Some(String::from("ab")),
        hash: None,
        nonce: 9,
        created_at: blockchat::crypto::Timestamp { secs: 0, nanos: 0 },
    };
    assert_eq!(
        block.calculate_hash(),
        "2ceb7cbf94ca1e0be8bf7a3854be84a5372b00d4cf4d657648de072328f12bc3"
    );
}
