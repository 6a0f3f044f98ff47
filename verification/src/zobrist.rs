//! Zobrist keys of the pieces on their squares. They are the keys of the move generator's own
//! position hash, so that keys built here from pieces agree with the hashes it reports.

use vstd::prelude::*;
use crate::chess::{Color, Piece, color_index, piece_index};

verus! {

/// Key of a colored piece on a square, at index `color * 384 + piece * 64 + square`.
pub const PIECE_KEYS: [u64; 768] = [
    0x7bba1163b64ed6ee, 0x3bbc03579d2e8eee, 0x9852eb1ccc1047b6, 0xfc510ee37e711053,
    0xeb0b369f513d2376, 0x2546e4005f0e6645, 0x6774fe7e92a2bb14, 0xe474d560b33b83cc,
    0x33828b828ad1ae9d, 0xa9492e8fae0d093a, 0x68076a6f32a039e9, 0xb0d062488c45828d,
    0x97cb3a66a4fe58e3, 0xb311be9aa2553799, 0x4996f235caefd327, 0x030bfe688d049c9e,
    0x7f48710b71995753, 0x8de0e8b80a578a42, 0x76cbfda666216778, 0xd914efbbfe1438fe,
    0xab8236304d022719, 0x1d038b8e1fd91730, 0xca043bb7939ddaff, 0x62dc14174016b3ea,
    0xbaecbf8cf69f29d9, 0xa213077f29b28146, 0x108a066c6247fdb6, 0x1c6825c3a79de779,
    0xa3e2a72be851bdd8, 0x8d04da920fc1c2a0, 0x5a293e537883ebc8, 0xf0a85e8ae2dbd1df,
    0x63ba4dac923f7702, 0x5b9f014ba8dace61, 0x3f47ddb8e409a4c0, 0xfa5190d9921611b7,
    0x87413fce50e42e12, 0x75a606942393359e, 0xb1bd90be3119b95f, 0x21a7c8e418ff5231,
    0x601608e79ac39557, 0x6934bac8a6bf22b4, 0xac7ca817abef17e3, 0x3fa0df58223e1857,
    0x76770a1dd32b33a1, 0x192391b3d22f42b0, 0x6a32ad7cff755f97, 0x02e37152bca91d70,
    0xbcd6d248705aa3e8, 0x5996aa5ffc9130a7, 0x518c554aa0ebfd4b, 0x3da5925a020e96b7,
    0xf53ee7b916cc0e28, 0xeba7b1a8807f0f9f, 0x12d343bfc4bf5cd1, 0xebd83ac404306d98,
    0x56a426ccf1dc0317, 0xc10b16018074df6a, 0x8ef1da2416a27510, 0xbbcf380cb93cc08c,
    0x0b26c408468c3d59, 0x808b726c5f088a24, 0xd27dc6a8ba721e03, 0xed76d96b85d985f0,
    0x19adefb3b8b7c5ab, 0xe8d8a1ad77ef2c61, 0x9ce6971694b3df90, 0x6ae837290c844b0d,
    0xb640d851e0a696ab, 0x72def10b518509f0, 0x4360be60f04412d0, 0x88a94c7ae3a74556,
    0x880320a4bc4178af, 0x6967293863d303cd, 0xdc7e5fdef02afc3e, 0xf2f16d88bb06ebff,
    0x6e4795382573ad51, 0x0d7e9bb89a373e3b, 0xc7117cc8780a9d16, 0x4da45687fcd90892,
    0xc9b4b27c40e949e2, 0x1ebca55b6f17b7af, 0x24b56bfa8e5e66e9, 0x92be21bb64c29049,
    0x4fdc91f6c36a89e9, 0x3f150103f833c95a, 0x53ff7461d7f99df2, 0x5e230503609bf061,
    0xa63bcddd96e6702f, 0x33651d9dd5741cca, 0x94dc7e2059527a11, 0xdf3ae67233a810e9,
    0x4304ba6613429df8, 0xd9b3bfa96b961dbe, 0x9f916f47523ea53f, 0xb94891eadf16c92e,
    0x1cb365e6e048d5ce, 0x3da59133e57c463d, 0x40c9ee6780bfef92, 0xec9d823a0382be9c,
    0x5d3e7a28205ce348, 0x6a2aa14f418a5ca4, 0xc49e62fa34dfb490, 0x6348feb35afeeca0,
    0x8c88ea0bf9ce40ba, 0x0f7ac3d59f8bd212, 0x4f753af632d47864, 0x5267702744bd3986,
    0x7cc46d73bb13b93c, 0xd93107f9dacee6cf, 0x2d1b1cb87394710a, 0x979f54bcad279c25,
    0x744a3391114775e8, 0x9cdf341b6d11983e, 0xea435014d6a07a84, 0x6e7e471192cc34fe,
    0x688cb0c59519cb41, 0x76a0c8daf92f6ff2, 0x8df26a937ad6e23b, 0x7c74a3ec55188f82,
    0x99685bc787828148, 0x39e701ffea250a79, 0xee9d412174a0a2be, 0x60568aea80a37c70,
    0x0005b2b55d3acac1, 0xe1651e32866e9c63, 0x73b92e384b3c7f68, 0x109dd750f48e7efe,
    0x493c65db9f06e4f7, 0xebc8cb6e04b822d4, 0x07eac524117e9dfd, 0x324ef94ea9e33da5,
    0xb19a7596d977e69c, 0x968cabf60f43d901, 0xfd833220786d5357, 0x3cd695a964c29534,
    0x30ec99a157855ab8, 0x3f4632f33c6b062c, 0xad787e81946fd19b, 0xe2dfb3154531fd69,
    0x574c1a97d3ee526f, 0x8b11b6c73739654c, 0x44b9a986e6936710, 0x260839842fa51e0e,
    0xfb303bb9b065a51e, 0x72770167e90e984f, 0xa6fd77f6a73bb834, 0x6b6efc1632b9e94c,
    0xd03a68fd2a79fb8a, 0xf9025a8a5de41869, 0x5b6fd0469b8b851b, 0xc42cc3571e30ecef,
    0x73c8c9e62cd11321, 0x430b44cb88a9fb54, 0x1dda7f425615ebdf, 0xeec22a22291da166,
    0xb60b7494ca534634, 0x8676a6bb64bee65d, 0x3fc9dfcc51285531, 0x97d14b051d302dd6,
    0xa8afa9205db69dfc, 0xd9b2e008eb6a835f, 0xf5154959d0861315, 0x49811c8cd8a52552,
    0x918045d9d332ff73, 0xc21f2257628fed44, 0x45d2c524536aacfa, 0xfa14e4a2f3fa8b17,
    0x38ac73ce3e746531, 0x2b8ce34b0e0fa0b0, 0xba78c8d96af8d7d5, 0xe220c07428159f3d,
    0xe698eb0ca31b2359, 0xee852df4fa474712, 0x2a790de607422962, 0x9e17c9b42d1d8a00,
    0x8b460eec2aa99898, 0x08af254833e11a94, 0x71542207c8b63daa, 0x5dac7f9960f1b2c7,
    0x5657516e9dbcab0a, 0x6f28744ffad620ee, 0x8f3fa60ef87dfde0, 0xcb26333dc779ee6f,
    0x086f5d46ea67f86d, 0x300d925167177f7a, 0x2441ad9253d18965, 0xe39bedcffbf97b75,
    0xe13bb367dfcb3421, 0x820138d2e24f7d56, 0xd30b06cfc8c3cda7, 0x2ec8995421b25f93,
    0x65690a6e1d64caff, 0xb5396c1febc1286a, 0xc6d79e1f5aafb085, 0x94f96646be394e11,
    0x8f65caa4e2ba896b, 0xd1ca53b28ca7e6dd, 0x8878b5625bb8e581, 0x326f83720e7f71e5,
    0x16570eb2850f9255, 0x363d98e232e04afd, 0x08c5c2f798a416a6, 0x080cf8ac3535c609,
    0x298eb9abd38016f2, 0xef13ef53f4f0b480, 0xd8a3daaff000fda0, 0x70ee9abf6d2b9553,
    0xe1f96f9717332a17, 0xbc6c2a30c170bbda, 0x1ed7130651fbb37f, 0xd4d8e84d89b5f617,
    0x4b106d69ed374566, 0x3c92fa713f89c689, 0x45b305d2c65a4b2c, 0x6d7d11a9c3d66af5,
    0xa469b76591b43c9f, 0x1a4092b4c0da577f, 0x4c297c85c3a2c3b6, 0x0152db642a8ee470,
    0xd205d31c54572a35, 0x6a71143169ad39a3, 0xbcc75f7b07039992, 0x26859e0b95f2a716,
    0xa73b9aeb554feb5d, 0x7b4691d4dd59119a, 0xaca4e3408d525fbe, 0x9e28981f6080d027,
    0x996f462ad06e1984, 0x075814e8697dcded, 0xa6ba88d3271f1057, 0xea7a062b53b557d2,
    0xa291bba104e472de, 0x6c3f160aaa8b4dc9, 0x8143f92c3f534202, 0xd3d626abd6d1c5da,
    0xe8f9dd418a57dd77, 0x47ef32f1a2e94863, 0x505f66562e330f48, 0xcb8e7b64e7668623,
    0x46c8f7c084b502d2, 0x2a62295055da5efb, 0x1b1048c3405a307e, 0xd2f1bb02c600acb7,
    0x6f7da183768d053d, 0x8d1de8d2ebd52130, 0x2b2a0399d229860c, 0x0d8ba8727c494eaf,
    0x0ae3ce62d6737737, 0x662a32561651c092, 0x4655c4c3939c2356, 0x183ad1fac44bc68e,
    0xb4e1c889520da594, 0x47bc7f9bfd604d12, 0x6823b430adb1edeb, 0xd5dad9196ebe23db,
    0x46a4cbaf1d85ee4b, 0xa504dbd988b07544, 0xf93f20cc176611b7, 0x0f2d367520f05f7f,
    0x6aace634b415fda8, 0xeb7764095bddc483, 0x182bb685a831095b, 0xb31da24cf6970620,
    0x2ab7c0699fa9a806, 0x62667336bbcfe09b, 0x282f08ccbe7090d8, 0xd2b7f6494b5b8453,
    0xbb365619cd83a73b, 0xc3390bf7cf00275c, 0x5278b3202a385536, 0x3b6ad82117376d23,
    0xa41767c6cb8dfb6e, 0x00e0751eff76111b, 0x5126676ef65047d5, 0x0d1696c1e095af97,
    0x2ab2d3a4bd7e43df, 0xfe7e10f273ab5905, 0x7330d4eee47b72f6, 0x448f1815f0731889,
    0xca6bba903eb36248, 0xd741a4ad901f69fe, 0xf8d6f38f5f1ebd5c, 0xa42658356727731b,
    0x88291a5cc69a0137, 0xf31b5f7da3b869f2, 0x6d9b663d8bce540c, 0x2af44ba134a7a609,
    0x67a895bd42e970f8, 0x7c06fea42ef977cd, 0xb72276125901edf6, 0x271fe23db6215cee,
    0x3d7286390ff91a26, 0x8db4a0ede29e4d49, 0x3d040e640a5a2253, 0xb83661e348fa308a,
    0xb4b95b5a02e822a7, 0x64ca9167d64122db, 0x5559075f5a115116, 0x1d76d5cc2995e221,
    0x50039b77a3442900, 0x703af61cc07f1a62, 0x20458f54f3cc047c, 0x7753ac0cae8e44b8,
    0xd553529fa593b030, 0xa8dcd5bcdabdd43d, 0xd855bfde2b772aed, 0x14ff564dfb20d593,
    0x52551427c3d1547f, 0x27e16a24781fb464, 0x331ed9cb5df1d6f6, 0x837e23a6c044bd8a,
    0xc1c8c5eabe420e3c, 0x4209fcc79a680383, 0x3b83ff9097960fe0, 0x57f85e7640a34ca7,
    0x5cbe2d66b3d76c27, 0x6c758a3af2c72989, 0xba16c8b5a6f3abda, 0x58f3f314f1a8d032,
    0x5231e238b6c96454, 0x4d62d922de423bd6, 0xbae147359864b088, 0x5a905326d9164048,
    0xbd6f96002b010345, 0xc17c74a14282a8ee, 0x882bf542776976d9, 0xb6328680c27025d2,
    0xf20e1247c4bf8d0e, 0x9b5df22eb6f7183c, 0x74fb900798700efa, 0x21fc561b507bd0cf,
    0xbb1fd2bf817fd919, 0x77e9111dcd205baf, 0x73ce0d560a2dd306, 0x62acfc15a847f72c,
    0xc5e7d640d7230ef2, 0xfbeafe5243bc201c, 0x7f1df4845ac72828, 0x2135488d7cf7ae8d,
    0x2786a52d2c89023f, 0xafb259d3035f8475, 0x4b50a4c9b4960fb4, 0x5b1d66644b185e77,
    0x8eb2e6af27d9da1a, 0xd4eada084325317d, 0xa4a0250565590c88, 0xf0dcefe7c2ac548f,
    0x1da582cdeec3eb30, 0x9ab30f2280bf367f, 0x3445d0c5c1601afc, 0x6a8d10ee574d2680,
    0xebb36b7970d7c842, 0x2ba9f791ee92e62b, 0x3be63d80d28f2426, 0xfaaa9aed90265938,
    0x786d509736466c08, 0x61c63fe1991fbb39, 0x6c5a99d44cd97c45, 0x49203820b3843d72,
    0x4162fa8e3e4c9b06, 0x9c7b9b1aaa01c5fe, 0x492f12cc5625aa40, 0x8255925094b07057,
    0x1711188c0a1b2d81, 0xcdb03d99786bb6cf, 0x5e2e292c58f48818, 0xd16922c33b192eba,
    0x50146d66f3ee7d55, 0x3687cb17d3deb3df, 0x449b9ff833bb7c56, 0x04ca9d737417dd03,
    0x2a866d5eaced64df, 0xcce8047df7bab006, 0xb9349816f2871f21, 0x43bd5325217b0647,
    0xd5d9b9eed6b1ee94, 0x9af035b228a45b28, 0x4a07320401764586, 0x0e0001f1cc62b31d,
    0x8d34878e88e4ac2d, 0x89f9ecb1381a20cd, 0xfc91e0413a87d11a, 0x1f58b2d1cad3d983,
    0xa7049d79629ac5e9, 0x444db8d9c5426c13, 0x12acaefe0b7fd4b9, 0x45f4a3e150bb2e44,
    0x4451e8f4c45c5fbc, 0x76ba0b7991fd24dc, 0x95d7aa3e1be78e73, 0x30db8810898d8393,
    0x35bf68f61721f25d, 0x56ca3944e3d01c01, 0x9dfc556802a80227, 0x24ddab5827d40062,
    0xb01d95217fa383ff, 0xd486ab746479dab8, 0x5da7737aaffd4001, 0xe986fa7aae3fd953,
    0x982e452739f879d1, 0xf779fca38d4de063, 0x11ec8bffba84a6aa, 0xeba0f7788a327da3,
    0x4a33645d2b240467, 0xa65c9a7efa5119dc, 0x8dc6062788baf375, 0x013c9107166128ad,
    0xa0f7a9888e6500d1, 0x27a8192d46a5d3f4, 0x0b2b447bd2da8b1d, 0x4dd09dafa7e172ab,
    0x72c02ab28ad48b9e, 0x907581fd9016b0fd, 0x87f7f76a66b3edd1, 0x727ced19236b371b,
    0xf4c58ad0cb4a7675, 0x2b1de4685992d7eb, 0xcf98960c2c28056c, 0xd5219eb9a1ca0f13,
    0x0c6ac3a63661721d, 0xe742d0eaf9b7cb59, 0x20ad8e5d9b5622e5, 0x0bb47ff23a5d429d,
    0x49164f1ade90f7ba, 0x91c4cc56cf1388d3, 0x026b0eedd94a7292, 0xb1d30c1927ad5bfb,
    0x10192be94fe1cb76, 0x45058bdb1d2b9f66, 0x9fcebe90456ddf69, 0x6ffa7ae000011282,
    0x091963983efee47e, 0x562d8aa85987cf93, 0x8e8ca6013ed2c72b, 0x30975d384e9b3af0,
    0x4096087e8e152b26, 0xd68b6edce9857aa3, 0x549a10f6ce8f1f8c, 0x1ebe4b892e482343,
    0xfea5f2b808694889, 0x673e0a44b19a0397, 0x00b644bf7bab57b6, 0xb1868ab3a1b539cb,
    0x738223d385894f16, 0x63ee036b71c0360c, 0x585a7fff46f32ba4, 0xf96fa12c8d4167be,
    0xef703fd8b960b0a4, 0x4546b036990539ec, 0xfd556d282c889ff3, 0x3035992af1f64627,
    0x8744d927cefa4232, 0x5f9cb58c2d034d28, 0xe8e6a6d1c31fa6d3, 0x150d6574504f6150,
    0xe2c928682e22a97d, 0xd963bab5136b1eff, 0xae0e4bc06b265add, 0x71fc4087dfdb60b2,
    0xb88f880a502d30ed, 0x3ff7a30ca0476cd9, 0xf78c4c0c15b299c1, 0x06e3cfacc6fa2abb,
    0xb04ec5cbfe3b6a52, 0xe9a55b8e15759b0e, 0xe9fc31a2bdb023e2, 0x5ec7c05780f77fe5,
    0xfc4205af3532e1a7, 0xd3a3689a39a3d623, 0xc1336c623b86e45d, 0xbaf989a7c44203e6,
    0x4c1c31a608fe021a, 0x55adeed23bbd23cf, 0x1a96d9afafc04498, 0x8e8673aa29e500de,
    0xa663a16c60428046, 0xa5519b0aafb66904, 0x15dbce832dea8bbe, 0x098f213fd769a281,
    0xd6a4b8d01c20bbed, 0x400e54650141bcb3, 0xd8519d02af5c9051, 0xeb72f3d25f99d27d,
    0x132bc520ebf29da7, 0x3d1058bc0f8c5a21, 0xaed8210ffe65a0f2, 0xec15cbab8de7ef7e,
    0xf8df92860557789f, 0xdef65f69fc4dc3a1, 0xbf65506e36a73dc6, 0xe6341dd0382f8fab,
    0x73f100ce992ba107, 0x57b07c25f2238114, 0x25b3e3d50a9c9e7c, 0x0982f996b616e5b0,
    0xa5e3676bac6aa816, 0xfeb44d1e694628b3, 0x8cb7100c16c88e0f, 0x8c009b4e878c33ce,
    0x646f61bd575a83e6, 0x0e69e03f94b5c69f, 0xddfc3b4631b7fbff, 0x2a4956dbe871638f,
    0xb411cfe62cc79baf, 0x3b2129712f6f1c31, 0x3cae4516c9e76802, 0xbadecd2722ad865e,
    0x1b77696b7b1fb78c, 0x3f17449a33776591, 0x2dbde1df6fdb89ec, 0x2d89f237c9047a9c,
    0xbede21aaea6db59c, 0x196eb3370f28bc12, 0xf7865208158081ef, 0x16f8df2526af1f75,
    0xb823114747610677, 0x2bba1dc264fda0cc, 0xbb758f2ae46bff9c, 0x2371d83e1218ef39,
    0xefb270948a42fe39, 0xcc5ed3ee91c4042e, 0x3c6dff7d98995f4c, 0xac8fdb5122da7463,
    0x4de78041c348ddb5, 0x3bac3e3f111fba94, 0xbe71601085cc11ae, 0x5e2b2ca6bf90c398,
    0x735a34f08a5b0be0, 0x6262aa719cfddb01, 0x10b42a8b0ac1005e, 0x0255e08c87f75d86,
    0x7c60618b9cc3a00e, 0x20863be59256030e, 0x3b377eb3da97598e, 0xdea07c073664132c,
    0xc5dedab156ec97bb, 0x6c91b1770fbf95c0, 0xe49dcdff40fc271e, 0x4e53a77a013306a0,
    0xcdd8f80f7d61b589, 0x2e523fb03cf34519, 0x899515c8c1d65bb3, 0xe47022cb8ed3d3a1,
    0xa299078e43385746, 0x6e38d29446699dee, 0xd9d55a0cc5c211aa, 0xd8dfe4f8076af257,
    0x027f2f39b0712491, 0xbaa4bffad2060062, 0x6f6361d39e64efaa, 0x78cbadfbbf41c112,
    0x2c11c07cb11d82c1, 0x37d79338f28dab50, 0xd368a99a18376da2, 0xc83200843d995671,
    0x7d824a855cdde7b3, 0x9f45d24422c1633a, 0x4d4dbdd4a175d86f, 0xba635e987c0b97b9,
    0x38e32b876063f308, 0xbb20e71ec4bd1e51, 0x5c479ff9f212d604, 0x43a5bf4cd8edf256,
    0x7904d78a8ea9db92, 0xe50466238d96a022, 0x779b3274c4983310, 0xebb4a23742237c44,
    0x3393673d93af77d7, 0x0ed809ceb5dbbaf7, 0xc53c2bb036b2dc92, 0xf5b0234db8383159,
    0x2fd5cc220c784ff9, 0xb057a8f1e5a1beac, 0x7d28fedb49fbf93b, 0x2e21befc5a232f63,
    0xd199ad9b615bcb6b, 0x5cd3883fba03f175, 0xb28c96f5760188ed, 0x3e0e7577231f9792,
    0xfa0afe06aeef1ac3, 0x493982175d017d3a, 0xebde5d6368f9d8ec, 0x0f0a840ee5c59df5,
    0x03284551900c94ec, 0xdd7635fd591dae68, 0x13c56b322909f436, 0x20945cf0f34b3ef2,
    0x9dadd00dceaaa374, 0x09677244bedf87b1, 0xd21ed9177602c3ca, 0x3a92b602e53bb3d4,
    0xf89ac1418645d550, 0xf8019f6a2708983d, 0xf2b300f67f5ada49, 0x7632f270649ed135,
    0x958f3a0bc8ce046f, 0x5a8cf9213665464a, 0x2d24b7c0c0802be2, 0xe93c36cdd1ad238e,
    0x10a30d03efb2e549, 0xb6b68c95346a9b73, 0x1dd7d82937dd7b57, 0x10ca1b110c87e3e5,
    0x1ff595d692ca6e2a, 0x41420763f105f5e2, 0x5cff468573838a3a, 0x8f6453c7485e71d4,
    0xfcdc51b5daf409e8, 0x4eab90bf0c3534c7, 0x63c4c19fe18fd24a, 0x0923ccac1d3c04bb,
    0xc267cb4f6f3152e1, 0x755b75e0530701fb, 0x90d0f02f8a2e11cc, 0xbb04a26ba84bac1b,
    0x4a161f1b8125b1e0, 0x64fa3487b60d1cd5, 0x7023799c3c545202, 0x26244e92ea877e7e,
    0xfecbddbea275a5b4, 0xeec55363d6961056, 0x4a5bf1213c0be3bb, 0xf95228579219ec88,
    0x14ec9455e9590df9, 0x1b8cc39701160fa0, 0xd6b36e90e47264de, 0xca57df94d43ee8b5,
    0xc35d379c7daaabb6, 0xb750bbddd180afbb, 0x7da96255f0311d6c, 0x01ffbfecbe654aa6,
    0x3460948fd41b9eed, 0x7cb3047b5eab50c7, 0xcab5bdb681d333bc, 0xbc2964ac8110dc0e,
    0xa6ede7cb0f2cbae5, 0xf038431a5060f630, 0x89dbf79713cfd47c, 0x4267980a8ce5d26a,
    0x2117db1c74f702d0, 0xe2943adcb671082d, 0xf77981d11968c23b, 0xef793181c055392b,
    0xb5d458a9135d05c3, 0x6e3d35c493a348c3, 0x1083374e316f034b, 0x3c9822c64724bae7,
    0xeee9eeb8ce5d9076, 0xab3525ae0a1872a9, 0x3ca78967fdc8c50e, 0x9f8d748ee6281eee,
    0x7a8de6b541216242, 0xe21d78b22e5274a8, 0x584e0f324ab9da15, 0x06f30a5d41dd1ae9,
    0xc5996a39fd7371f9, 0x5cc9fadd1204c1c8, 0x1156ab0dee39dc50, 0x73fc0756e8c55dd2,
    0x9e438736c4a48bc6, 0x94c2c9a4aefc7e6f, 0x6880d0aa15c260d1, 0x239123e601b7904e,
    0xcc29c0335fb15990, 0xd4ef5331bc235278, 0x97bbc1ecaaf79476, 0x035a48ba074f793e,
    0x16168fcbebeda9ec, 0x9e8c2dfaae654db8, 0xe02af0cfdf5fc32b, 0xfe97ac438ee09e55,
    0xc2bb2aa01a68e297, 0x0994b6e31cc56021, 0x64e8fbc2c332d02a, 0x9621bb194a6ee9ba,
    0x4b8df2404391e951, 0x5d3d677b9f56c311, 0xf3dfb594c871287d, 0x930ae2724f37a507,
    0x2184e77c58920a3f, 0xe3467ff41a46fded, 0x10ab79b6efa3bd43, 0x0eb56c783fb24e26,
    0xfbb1c6f42263c390, 0x09adf8aa45326dfc, 0x1d647bcba879991c, 0xe5a2e8be88e3a6a9,
    0xaf5e27b3e1d9c05b, 0x18bd29c933ac83ca, 0x317b49597a9a4ce9, 0x0eaf8076c9cb6a35,
    0xa00fa1a93be3d72b, 0xaa9ab7c1fd25cd6e, 0xf9d9b54d9e370e23, 0x937df77ecc432c36,
    0xe4b695a58f2dfacf, 0x9fa9dbb191fbbb6f, 0x58501291ac37f191, 0x46d33b4f6b6512a9,
    0xa0b13c4fb8a2c038, 0x5d7c3b9e5be0a639, 0x3a32218928c9eff1, 0x7d902547c3eed9bd,
    0x46fcb3f44135dee9, 0x26c73ec7cd0717af, 0x03543e253f7aaf70, 0x0e51b11f415f27a5,
    0x04295912e1464817, 0x6e6df4cec8cfecba, 0x977b59ccee734bdb, 0xb77a30241c747a45,
    0x951eda11280f4b44, 0xfa12d2f436546efa, 0x701ef575cc61b458, 0xd42d946c26792703,
    0x253780e69966c8b2, 0x3ea679a2709533b1, 0x75e9f176ad0e7b4f, 0xac463f0492d7b24b,
    0x0e8bef559d54f983, 0x0ea4feba8adebc87, 0x7126ab5aa6c3c3be, 0x84934130c07ecd60,
    0xc61761f7200d2f05, 0x65ee6d668406e3b0, 0x288b7da1937e854f, 0x811911a961fc3f5b,
    0x48d6bd6ddae3b9e9, 0x0dba1707029d521d, 0xac6b9eafcba8d993, 0x1d67bbe7037a6633,
    0xb94e4439deba1032, 0xf389be4b65cdae53, 0x4d4f2645c0893e79, 0xd6f8ba8f344cd9e9,
    0x009a21bf6f2f346e, 0x31ef896e93f4ae0b, 0xff7a1fe2346a300e, 0x21a5422ab96ca379,
    0x2110291e36240362, 0x5a83d6069dd605e0, 0x72f819c1c074bb72, 0xf45c1e09d6875f7a,
    0xedd58d9161de6a6e, 0x94f4546b3e99aa5c, 0xebfab1a321e125f2, 0x5e1073f74814589c,
    0xc642eb1643cc0dde, 0xd6b38ad594b6b65c, 0x284ba5116f4f274e, 0xd4808dc244aef582,
    0x988f542a50bcdd7f, 0xd6b34d96f34201a1, 0xd9488c7d02e97b5f, 0x4c2f4def14265286,
    0x2bd75fc202880acc, 0xc70673239f7094c9, 0x79d297d813962722, 0xf54322af4663f1e5,
    0x8a0418b57a7b361d, 0x9b26ee0110ae3a0f, 0x0871c0fad749fba7, 0xd0a7571bfd98a92a,
    0xc18abd3794f7d28a, 0x8d3fe9bf705487b9, 0xf1e8d1df713bd016, 0x40b0c37c625ee216,
];

/// Key of the en passant file.
pub const EN_PASSANT_KEYS: [u64; 8] = [0x1abe3cfbd438f689, 0xfeaa4f36d5d8a784, 0xed18a178677e6b3d, 0x3dd4361afb83b148, 0xa5a078a2606d417a, 0xf84bbc3fb912c5f8, 0x9d8ec75b0432fa94, 0x3babf0a4b3289bf0];

/// Key toggled when black is to move.
pub const BLACK_TO_MOVE_KEY: u64 = 0x756cd3058e88b0aa;

/// Key of `color`'s `piece` on `sq`.
pub open spec fn zkey(color: Color, piece: Piece, sq: int) -> u64 {
    PIECE_KEYS[color_index(color) * 384 + piece_index(piece) * 64 + sq]
}

/// Zobrist key of a colored piece on a square.
pub fn zobrist_pst(color: Color, piece: Piece, sq: u8) -> (r: u64)
    requires
        sq < 64,
    ensures
        r == zkey(color, piece, sq as int),
{
    PIECE_KEYS[color.index() * 384 + piece.index() * 64 + sq as usize]
}

} // verus!
