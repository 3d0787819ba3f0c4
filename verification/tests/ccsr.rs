use stash::ccsr::{
    api_error, latest_schema_path, publish_request, schema_by_id_path, subject_path, subjects_path,
    versions_path, Certificate, ClientConfig, DeleteError, ErrorResponse, GetByIdError,
    GetBySubjectError, Identity, ListError, PublishError, Schema, UnhandledError,
};

const CERT_DER: [u8; 785] = [
    48, 130, 3, 13, 48, 130, 1, 245, 160, 3, 2, 1, 2, 2, 20, 107,
    224, 84, 140, 179, 108, 201, 185, 69, 133, 35, 141, 115, 81, 242, 21, 29,
    111, 81, 25, 48, 13, 6, 9, 42, 134, 72, 134, 247, 13, 1, 1, 11,
    5, 0, 48, 21, 49, 19, 48, 17, 6, 3, 85, 4, 3, 12, 10, 115,
    116, 97, 115, 104, 45, 116, 101, 115, 116, 48, 32, 23, 13, 50, 54, 49,
    48, 50, 56, 50, 49, 48, 49, 49, 57, 90, 24, 15, 50, 49, 50, 54,
    49, 48, 48, 52, 50, 49, 48, 49, 49, 57, 90, 48, 21, 49, 19, 48,
    17, 6, 3, 85, 4, 3, 12, 10, 115, 116, 97, 115, 104, 45, 116, 101,
    115, 116, 48, 130, 1, 34, 48, 13, 6, 9, 42, 134, 72, 134, 247, 13,
    1, 1, 1, 5, 0, 3, 130, 1, 15, 0, 48, 130, 1, 10, 2, 130,
    1, 1, 0, 168, 79, 168, 96, 168, 96, 27, 227, 150, 246, 155, 39, 201,
    179, 173, 181, 80, 50, 252, 229, 220, 160, 25, 251, 205, 30, 131, 202, 177,
    102, 105, 142, 168, 170, 189, 173, 219, 142, 149, 212, 170, 246, 125, 246, 115,
    135, 102, 69, 59, 63, 88, 206, 11, 246, 36, 74, 57, 226, 208, 192, 213,
    85, 82, 208, 40, 159, 4, 38, 148, 175, 100, 109, 55, 237, 175, 132, 61,
    163, 110, 173, 69, 26, 37, 14, 175, 232, 57, 122, 1, 75, 255, 104, 235,
    162, 227, 40, 165, 7, 138, 66, 116, 237, 242, 230, 172, 155, 156, 240, 81,
    5, 143, 0, 137, 11, 68, 244, 230, 11, 73, 0, 210, 215, 30, 35, 106,
    136, 253, 219, 136, 244, 33, 116, 230, 236, 4, 136, 186, 2, 250, 76, 136,
    96, 255, 222, 213, 93, 61, 69, 181, 128, 250, 161, 137, 52, 50, 83, 23,
    98, 172, 119, 3, 211, 10, 224, 52, 1, 53, 146, 52, 15, 184, 64, 97,
    230, 89, 207, 72, 107, 68, 54, 93, 8, 20, 121, 143, 109, 87, 236, 216,
    249, 123, 111, 1, 198, 175, 160, 16, 139, 160, 34, 106, 102, 103, 159, 253,
    29, 145, 82, 186, 103, 169, 106, 42, 0, 62, 251, 88, 242, 35, 9, 78,
    95, 136, 4, 149, 74, 33, 123, 158, 227, 12, 107, 44, 39, 148, 164, 182,
    221, 155, 82, 140, 45, 57, 200, 199, 99, 5, 102, 150, 123, 154, 62, 155,
    126, 40, 87, 2, 3, 1, 0, 1, 163, 83, 48, 81, 48, 29, 6, 3,
    85, 29, 14, 4, 22, 4, 20, 236, 224, 19, 163, 109, 239, 142, 75, 112,
    221, 213, 60, 222, 174, 99, 46, 242, 9, 86, 227, 48, 31, 6, 3, 85,
    29, 35, 4, 24, 48, 22, 128, 20, 236, 224, 19, 163, 109, 239, 142, 75,
    112, 221, 213, 60, 222, 174, 99, 46, 242, 9, 86, 227, 48, 15, 6, 3,
    85, 29, 19, 1, 1, 255, 4, 5, 48, 3, 1, 1, 255, 48, 13, 6,
    9, 42, 134, 72, 134, 247, 13, 1, 1, 11, 5, 0, 3, 130, 1, 1,
    0, 76, 35, 193, 141, 26, 14, 167, 207, 184, 172, 11, 208, 111, 60, 145,
    189, 106, 38, 69, 56, 177, 8, 82, 217, 113, 195, 152, 115, 43, 236, 198,
    207, 237, 164, 25, 22, 108, 134, 89, 182, 192, 223, 85, 16, 87, 230, 16,
    226, 39, 6, 142, 21, 91, 44, 173, 151, 39, 145, 178, 139, 152, 158, 217,
    97, 181, 106, 80, 163, 57, 55, 145, 13, 117, 194, 41, 2, 190, 136, 123,
    92, 212, 150, 161, 118, 155, 100, 106, 215, 70, 76, 204, 238, 10, 147, 156,
    109, 90, 237, 14, 233, 124, 248, 224, 37, 160, 228, 82, 84, 213, 98, 91,
    181, 25, 49, 159, 41, 117, 243, 77, 252, 74, 214, 186, 248, 237, 163, 92,
    28, 178, 182, 140, 141, 48, 127, 173, 128, 200, 183, 251, 160, 196, 44, 156,
    188, 107, 176, 108, 156, 98, 202, 69, 213, 57, 243, 127, 27, 234, 141, 252,
    8, 89, 114, 250, 55, 33, 115, 95, 136, 142, 126, 35, 177, 58, 64, 61,
    11, 189, 45, 99, 7, 65, 82, 82, 21, 91, 83, 47, 22, 15, 45, 240,
    71, 173, 25, 64, 80, 114, 249, 230, 251, 234, 124, 39, 124, 63, 26, 216,
    115, 222, 255, 117, 96, 9, 132, 182, 160, 239, 196, 254, 119, 161, 144, 132,
    225, 19, 40, 48, 177, 175, 164, 192, 54, 26, 108, 225, 53, 228, 77, 247,
    77, 158, 118, 100, 69, 31, 254, 75, 197, 100, 202, 30, 209, 85, 136, 28,
    65,
];

const IDENTITY_P12: [u8; 2531] = [
    48, 130, 9, 223, 2, 1, 3, 48, 130, 9, 149, 6, 9, 42, 134, 72,
    134, 247, 13, 1, 7, 1, 160, 130, 9, 134, 4, 130, 9, 130, 48, 130,
    9, 126, 48, 130, 3, 242, 6, 9, 42, 134, 72, 134, 247, 13, 1, 7,
    6, 160, 130, 3, 227, 48, 130, 3, 223, 2, 1, 0, 48, 130, 3, 216,
    6, 9, 42, 134, 72, 134, 247, 13, 1, 7, 1, 48, 87, 6, 9, 42,
    134, 72, 134, 247, 13, 1, 5, 13, 48, 74, 48, 41, 6, 9, 42, 134,
    72, 134, 247, 13, 1, 5, 12, 48, 28, 4, 8, 108, 110, 167, 101, 204,
    211, 91, 100, 2, 2, 8, 0, 48, 12, 6, 8, 42, 134, 72, 134, 247,
    13, 2, 9, 5, 0, 48, 29, 6, 9, 96, 134, 72, 1, 101, 3, 4,
    1, 42, 4, 16, 142, 65, 125, 161, 91, 0, 170, 168, 230, 215, 196, 61,
    122, 27, 78, 64, 128, 130, 3, 112, 247, 141, 124, 130, 221, 187, 39, 107,
    254, 216, 28, 44, 181, 174, 107, 240, 139, 210, 24, 126, 69, 224, 32, 50,
    209, 35, 33, 243, 1, 71, 46, 149, 198, 202, 68, 170, 50, 94, 232, 165,
    54, 64, 51, 194, 64, 163, 129, 229, 24, 118, 15, 87, 48, 102, 67, 13,
    5, 43, 106, 114, 237, 54, 175, 245, 172, 187, 248, 152, 21, 213, 128, 102,
    154, 124, 75, 56, 66, 11, 249, 37, 215, 203, 191, 85, 31, 21, 92, 219,
    168, 67, 70, 68, 69, 52, 34, 207, 206, 55, 141, 132, 69, 0, 248, 98,
    13, 216, 109, 17, 161, 184, 161, 194, 76, 237, 119, 247, 0, 250, 213, 245,
    238, 105, 222, 175, 112, 95, 58, 14, 61, 171, 140, 79, 26, 195, 11, 64,
    36, 116, 188, 195, 182, 111, 83, 2, 250, 91, 144, 45, 118, 237, 134, 131,
    12, 7, 128, 127, 0, 122, 32, 129, 70, 104, 87, 192, 159, 238, 99, 104,
    122, 72, 147, 135, 209, 229, 192, 215, 192, 54, 66, 125, 233, 252, 167, 63,
    222, 4, 21, 2, 106, 6, 221, 241, 200, 240, 243, 79, 34, 121, 24, 185,
    67, 199, 134, 241, 244, 154, 139, 86, 111, 147, 207, 238, 252, 240, 145, 69,
    42, 212, 213, 7, 158, 229, 232, 163, 30, 54, 62, 166, 51, 212, 255, 99,
    133, 234, 153, 65, 213, 6, 163, 136, 53, 75, 169, 36, 161, 112, 157, 211,
    53, 118, 238, 21, 222, 12, 4, 111, 234, 104, 208, 161, 162, 38, 235, 99,
    199, 207, 35, 206, 189, 46, 103, 254, 118, 30, 219, 174, 147, 76, 95, 84,
    192, 115, 65, 25, 19, 114, 56, 249, 198, 251, 7, 249, 148, 104, 50, 167,
    245, 30, 108, 64, 30, 156, 179, 211, 214, 96, 149, 78, 225, 64, 185, 1,
    89, 113, 124, 216, 224, 100, 171, 122, 199, 176, 217, 251, 180, 89, 52, 157,
    51, 143, 165, 219, 231, 115, 114, 205, 123, 95, 58, 211, 198, 233, 65, 251,
    239, 114, 180, 181, 186, 206, 210, 39, 57, 228, 71, 142, 10, 139, 150, 140,
    3, 39, 152, 80, 18, 160, 234, 240, 225, 135, 128, 212, 191, 179, 197, 65,
    153, 93, 74, 107, 171, 246, 124, 35, 151, 167, 207, 210, 216, 224, 250, 18,
    227, 116, 65, 200, 244, 83, 30, 151, 125, 233, 93, 183, 218, 160, 147, 58,
    98, 195, 163, 123, 222, 207, 85, 64, 139, 92, 245, 51, 47, 87, 234, 112,
    231, 88, 122, 105, 148, 151, 100, 137, 144, 165, 174, 95, 246, 154, 80, 188,
    250, 188, 15, 218, 187, 251, 180, 31, 247, 200, 149, 36, 202, 12, 67, 236,
    150, 248, 246, 232, 128, 135, 217, 193, 2, 155, 110, 177, 205, 170, 226, 191,
    75, 235, 152, 106, 66, 253, 81, 215, 158, 216, 70, 21, 157, 78, 12, 53,
    251, 104, 194, 150, 8, 127, 41, 70, 24, 151, 169, 143, 173, 60, 247, 21,
    111, 12, 235, 152, 55, 247, 174, 233, 167, 190, 126, 142, 80, 6, 4, 211,
    102, 41, 174, 5, 27, 173, 29, 97, 51, 74, 197, 244, 169, 213, 161, 203,
    43, 194, 208, 217, 97, 240, 114, 217, 163, 77, 108, 36, 211, 254, 62, 216,
    116, 151, 29, 244, 130, 30, 190, 41, 111, 12, 156, 106, 114, 24, 77, 49,
    39, 104, 241, 82, 174, 161, 13, 114, 168, 36, 80, 97, 108, 86, 153, 45,
    189, 219, 220, 200, 164, 15, 69, 179, 216, 113, 130, 22, 15, 192, 175, 165,
    72, 82, 131, 98, 68, 143, 141, 239, 225, 233, 227, 99, 151, 173, 103, 238,
    200, 37, 160, 40, 157, 233, 34, 173, 186, 254, 121, 164, 145, 126, 187, 162,
    49, 105, 186, 235, 212, 32, 48, 195, 168, 247, 70, 84, 29, 149, 125, 101,
    4, 35, 153, 75, 32, 139, 67, 195, 108, 4, 54, 255, 99, 213, 208, 161,
    75, 189, 60, 50, 11, 215, 95, 238, 206, 250, 39, 53, 25, 11, 40, 195,
    153, 6, 74, 149, 241, 95, 184, 73, 91, 122, 47, 208, 132, 202, 67, 52,
    203, 201, 92, 254, 86, 89, 123, 51, 15, 174, 118, 7, 183, 73, 4, 193,
    105, 47, 186, 60, 174, 39, 28, 249, 222, 150, 104, 240, 195, 68, 116, 37,
    148, 246, 45, 134, 4, 61, 163, 253, 29, 244, 95, 160, 245, 90, 176, 95,
    27, 106, 62, 112, 90, 150, 29, 241, 222, 154, 211, 4, 61, 183, 194, 4,
    25, 156, 114, 175, 107, 26, 248, 71, 95, 183, 95, 82, 5, 163, 157, 106,
    230, 240, 8, 245, 233, 137, 65, 134, 108, 45, 106, 236, 141, 74, 108, 8,
    53, 93, 36, 63, 175, 6, 245, 207, 230, 82, 144, 98, 144, 250, 214, 207,
    206, 161, 97, 214, 35, 75, 19, 147, 63, 217, 105, 57, 94, 151, 46, 145,
    94, 130, 239, 142, 111, 241, 109, 30, 55, 238, 84, 44, 47, 244, 253, 131,
    8, 209, 56, 59, 138, 24, 16, 27, 234, 9, 248, 41, 246, 147, 110, 182,
    33, 209, 237, 156, 24, 44, 140, 23, 254, 29, 103, 107, 220, 43, 139, 246,
    213, 158, 242, 30, 241, 175, 13, 174, 48, 130, 5, 132, 6, 9, 42, 134,
    72, 134, 247, 13, 1, 7, 1, 160, 130, 5, 117, 4, 130, 5, 113, 48,
    130, 5, 109, 48, 130, 5, 105, 6, 11, 42, 134, 72, 134, 247, 13, 1,
    12, 10, 1, 2, 160, 130, 5, 49, 48, 130, 5, 45, 48, 87, 6, 9,
    42, 134, 72, 134, 247, 13, 1, 5, 13, 48, 74, 48, 41, 6, 9, 42,
    134, 72, 134, 247, 13, 1, 5, 12, 48, 28, 4, 8, 205, 226, 0, 221,
    146, 196, 16, 62, 2, 2, 8, 0, 48, 12, 6, 8, 42, 134, 72, 134,
    247, 13, 2, 9, 5, 0, 48, 29, 6, 9, 96, 134, 72, 1, 101, 3,
    4, 1, 42, 4, 16, 126, 13, 114, 56, 10, 191, 66, 58, 238, 53, 220,
    135, 209, 58, 106, 255, 4, 130, 4, 208, 2, 156, 21, 150, 186, 246, 54,
    49, 192, 15, 64, 102, 247, 50, 144, 131, 84, 135, 41, 199, 252, 75, 89,
    202, 31, 207, 210, 67, 52, 199, 6, 133, 132, 205, 80, 77, 250, 33, 128,
    232, 201, 57, 26, 26, 193, 143, 176, 1, 199, 146, 96, 8, 77, 138, 71,
    195, 65, 40, 160, 62, 131, 56, 254, 126, 67, 189, 189, 116, 152, 194, 46,
    171, 168, 29, 148, 59, 101, 236, 98, 61, 158, 152, 94, 3, 37, 247, 226,
    26, 84, 114, 211, 226, 22, 248, 71, 35, 162, 73, 129, 89, 233, 92, 183,
    46, 123, 26, 225, 239, 226, 52, 163, 119, 56, 32, 140, 174, 180, 151, 238,
    226, 123, 28, 64, 122, 7, 102, 116, 96, 243, 245, 124, 170, 124, 115, 190,
    94, 123, 68, 50, 0, 154, 181, 246, 247, 195, 111, 199, 34, 23, 156, 113,
    202, 194, 150, 109, 245, 171, 151, 233, 171, 251, 24, 222, 59, 114, 61, 240,
    6, 230, 235, 142, 81, 156, 9, 129, 96, 195, 217, 26, 210, 198, 86, 37,
    58, 102, 192, 85, 237, 101, 45, 123, 151, 102, 123, 147, 72, 113, 85, 151,
    42, 253, 41, 140, 95, 47, 251, 126, 104, 76, 220, 195, 240, 242, 89, 12,
    118, 178, 215, 145, 50, 214, 100, 219, 32, 196, 155, 177, 80, 152, 195, 113,
    157, 28, 38, 102, 59, 118, 213, 170, 171, 128, 212, 60, 90, 136, 253, 22,
    53, 93, 65, 11, 166, 247, 252, 105, 163, 141, 156, 129, 1, 50, 6, 43,
    56, 219, 99, 11, 104, 193, 9, 89, 41, 200, 10, 105, 92, 125, 149, 109,
    139, 225, 67, 9, 187, 1, 176, 238, 20, 202, 153, 16, 25, 234, 74, 111,
    121, 165, 111, 19, 157, 222, 166, 52, 49, 168, 59, 179, 59, 178, 99, 38,
    95, 118, 62, 57, 147, 80, 176, 56, 77, 43, 230, 172, 222, 19, 182, 246,
    57, 31, 66, 209, 48, 99, 24, 123, 75, 20, 46, 70, 174, 109, 91, 203,
    21, 195, 73, 42, 60, 113, 17, 65, 40, 194, 110, 213, 116, 193, 101, 102,
    200, 223, 102, 64, 76, 206, 41, 223, 185, 204, 240, 154, 127, 46, 204, 178,
    98, 189, 120, 234, 102, 160, 173, 161, 49, 90, 189, 149, 49, 164, 203, 121,
    230, 44, 27, 177, 20, 100, 85, 60, 118, 90, 10, 128, 142, 221, 216, 217,
    228, 97, 47, 13, 115, 73, 102, 62, 100, 58, 252, 9, 126, 80, 81, 34,
    235, 142, 128, 66, 91, 45, 201, 166, 50, 79, 59, 34, 67, 152, 163, 18,
    46, 50, 91, 115, 24, 160, 37, 123, 75, 242, 155, 177, 146, 97, 56, 240,
    9, 216, 144, 110, 86, 58, 142, 164, 232, 151, 155, 193, 197, 233, 31, 69,
    35, 21, 33, 174, 91, 26, 60, 96, 211, 111, 124, 19, 18, 43, 33, 173,
    236, 201, 227, 72, 64, 242, 0, 21, 203, 169, 205, 243, 31, 58, 179, 185,
    142, 24, 234, 94, 64, 212, 165, 205, 139, 70, 163, 118, 142, 166, 36, 167,
    92, 218, 2, 156, 211, 234, 168, 238, 249, 27, 218, 49, 116, 218, 136, 184,
    186, 35, 190, 209, 70, 65, 225, 247, 19, 72, 163, 50, 162, 152, 200, 223,
    30, 62, 115, 181, 231, 85, 104, 29, 151, 92, 249, 173, 20, 235, 214, 139,
    62, 77, 66, 131, 10, 181, 66, 139, 94, 85, 161, 255, 57, 138, 4, 224,
    182, 189, 156, 63, 158, 48, 9, 215, 34, 12, 229, 167, 113, 174, 74, 219,
    217, 200, 58, 47, 6, 40, 104, 236, 107, 164, 103, 6, 198, 236, 67, 121,
    144, 194, 222, 181, 102, 49, 35, 165, 108, 32, 1, 145, 74, 172, 210, 173,
    232, 129, 140, 35, 150, 138, 230, 47, 3, 111, 240, 237, 142, 123, 57, 246,
    126, 159, 97, 26, 202, 23, 62, 42, 240, 97, 42, 117, 94, 82, 194, 105,
    140, 201, 158, 88, 99, 186, 184, 36, 98, 28, 159, 5, 56, 140, 138, 126,
    66, 233, 45, 119, 102, 87, 178, 3, 5, 80, 186, 134, 224, 45, 208, 68,
    102, 171, 190, 78, 185, 33, 230, 174, 64, 32, 190, 213, 38, 88, 46, 204,
    151, 116, 35, 41, 199, 169, 93, 47, 93, 71, 190, 247, 18, 146, 117, 100,
    214, 158, 255, 167, 107, 242, 13, 214, 254, 51, 105, 192, 41, 124, 121, 86,
    146, 254, 49, 110, 130, 231, 165, 208, 89, 56, 254, 72, 103, 53, 132, 211,
    115, 126, 215, 123, 159, 100, 105, 142, 100, 126, 254, 139, 186, 113, 86, 37,
    136, 239, 90, 65, 141, 153, 233, 92, 96, 62, 233, 202, 42, 14, 151, 91,
    179, 56, 138, 67, 129, 169, 47, 115, 244, 21, 253, 185, 240, 10, 69, 152,
    5, 88, 43, 23, 232, 159, 170, 209, 55, 62, 202, 151, 57, 54, 99, 92,
    161, 0, 12, 53, 152, 177, 145, 140, 165, 182, 239, 161, 91, 70, 107, 124,
    97, 73, 72, 62, 49, 90, 165, 77, 70, 147, 232, 144, 93, 46, 79, 203,
    50, 38, 252, 254, 34, 170, 78, 188, 38, 163, 169, 134, 62, 32, 55, 24,
    83, 54, 187, 223, 63, 144, 56, 224, 104, 210, 238, 76, 210, 67, 175, 105,
    77, 159, 162, 128, 6, 188, 62, 52, 158, 90, 80, 84, 46, 115, 228, 126,
    11, 23, 214, 130, 140, 90, 173, 11, 225, 86, 251, 82, 220, 65, 119, 49,
    6, 226, 254, 151, 198, 137, 140, 175, 197, 8, 33, 103, 222, 116, 91, 98,
    229, 219, 83, 192, 19, 224, 193, 54, 198, 51, 9, 81, 186, 224, 20, 42,
    154, 197, 35, 218, 152, 249, 118, 136, 250, 111, 184, 150, 7, 252, 250, 255,
    44, 45, 205, 18, 119, 232, 160, 59, 234, 246, 91, 96, 102, 117, 212, 12,
    215, 255, 47, 177, 100, 245, 147, 108, 138, 100, 170, 157, 224, 110, 222, 66,
    133, 93, 176, 108, 79, 193, 82, 40, 158, 36, 245, 98, 227, 209, 187, 215,
    232, 235, 202, 215, 155, 234, 87, 2, 175, 38, 191, 5, 5, 132, 17, 115,
    58, 238, 179, 203, 121, 124, 180, 109, 64, 209, 70, 231, 45, 224, 253, 72,
    116, 27, 156, 120, 63, 161, 209, 66, 121, 2, 54, 38, 161, 23, 27, 58,
    254, 89, 41, 14, 118, 215, 144, 25, 156, 98, 4, 134, 55, 132, 76, 16,
    110, 37, 128, 144, 218, 8, 10, 205, 8, 228, 46, 100, 224, 187, 110, 10,
    252, 29, 61, 129, 128, 100, 189, 145, 236, 144, 158, 163, 200, 16, 226, 156,
    140, 154, 32, 30, 39, 13, 87, 210, 215, 51, 121, 182, 235, 14, 62, 191,
    5, 3, 103, 223, 252, 197, 27, 135, 19, 236, 202, 39, 237, 135, 120, 95,
    90, 33, 236, 187, 152, 64, 106, 108, 67, 192, 159, 59, 74, 237, 241, 48,
    188, 180, 235, 67, 171, 99, 150, 77, 38, 22, 135, 84, 38, 76, 86, 255,
    78, 252, 46, 216, 22, 39, 98, 174, 116, 40, 76, 15, 182, 197, 29, 11,
    187, 144, 116, 125, 57, 54, 246, 193, 213, 15, 124, 10, 146, 163, 149, 165,
    211, 139, 100, 31, 155, 138, 88, 255, 247, 164, 249, 116, 144, 92, 214, 186,
    194, 248, 126, 107, 182, 93, 233, 150, 94, 49, 37, 48, 35, 6, 9, 42,
    134, 72, 134, 247, 13, 1, 9, 21, 49, 22, 4, 20, 142, 38, 112, 75,
    0, 128, 22, 188, 192, 229, 56, 200, 195, 185, 120, 129, 249, 209, 232, 87,
    48, 65, 48, 49, 48, 13, 6, 9, 96, 134, 72, 1, 101, 3, 4, 2,
    1, 5, 0, 4, 32, 16, 48, 196, 110, 12, 226, 154, 54, 115, 145, 32,
    231, 60, 164, 43, 189, 86, 231, 200, 233, 205, 94, 209, 225, 245, 212, 13,
    231, 189, 157, 27, 79, 4, 8, 232, 89, 188, 104, 83, 206, 183, 39, 2,
    2, 8, 0,
];

const CERT_PEM: &str = "-----BEGIN CERTIFICATE-----\nMIIDDTCCAfWgAwIBAgIUa+BUjLNsyblFhSONc1HyFR1vURkwDQYJKoZIhvcNAQEL\nBQAwFTETMBEGA1UEAwwKc3Rhc2gtdGVzdDAgFw0yNjEwMjgyMTAxMTlaGA8yMTI2\nMTAwNDIxMDExOVowFTETMBEGA1UEAwwKc3Rhc2gtdGVzdDCCASIwDQYJKoZIhvcN\nAQEBBQADggEPADCCAQoCggEBAKhPqGCoYBvjlvabJ8mzrbVQMvzl3KAZ+80eg8qx\nZmmOqKq9rduOldSq9n32c4dmRTs/WM4L9iRKOeLQwNVVUtAonwQmlK9kbTftr4Q9\no26tRRolDq/oOXoBS/9o66LjKKUHikJ07fLmrJuc8FEFjwCJC0T05gtJANLXHiNq\niP3biPQhdObsBIi6AvpMiGD/3tVdPUW1gPqhiTQyUxdirHcD0wrgNAE1kjQPuEBh\n5lnPSGtENl0IFHmPbVfs2Pl7bwHGr6AQi6AiamZnn/0dkVK6Z6lqKgA++1jyIwlO\nX4gElUohe57jDGssJ5Sktt2bUowtOcjHYwVmlnuaPpt+KFcCAwEAAaNTMFEwHQYD\nVR0OBBYEFOzgE6Nt745LcN3VPN6uYy7yCVbjMB8GA1UdIwQYMBaAFOzgE6Nt745L\ncN3VPN6uYy7yCVbjMA8GA1UdEwEB/wQFMAMBAf8wDQYJKoZIhvcNAQELBQADggEB\nAEwjwY0aDqfPuKwL0G88kb1qJkU4sQhS2XHDmHMr7MbP7aQZFmyGWbbA31UQV+YQ\n4icGjhVbLK2XJ5Gyi5ie2WG1alCjOTeRDXXCKQK+iHtc1JahdptkatdGTMzuCpOc\nbVrtDul8+OAloORSVNViW7UZMZ8pdfNN/ErWuvjto1wcsraMjTB/rYDIt/ugxCyc\nvGuwbJxiykXVOfN/G+qN/AhZcvo3IXNfiI5+I7E6QD0LvS1jB0FSUhVbUy8WDy3w\nR60ZQFBy+eb76nwnfD8a2HPe/3VgCYS2oO/E/nehkIThEygwsa+kwDYabOE15E33\nTZ52ZEUf/kvFZMoe0VWIHEE=\n-----END CERTIFICATE-----\n";

fn api(code: i32, message: &str) -> UnhandledError {
    UnhandledError::Api {
        code,
        message: message.to_string(),
    }
}

#[test]
fn request_paths() {
    assert_eq!(schema_by_id_path(17), "/schemas/ids/17");
    assert_eq!(schema_by_id_path(0), "/schemas/ids/0");
    assert_eq!(schema_by_id_path(-3), "/schemas/ids/-3");
    assert_eq!(schema_by_id_path(i32::MAX), "/schemas/ids/2147483647");
    assert_eq!(schema_by_id_path(i32::MIN), "/schemas/ids/-2147483648");
    assert_eq!(
        latest_schema_path("orders-value"),
        "/subjects/orders-value/versions/latest"
    );
    assert_eq!(versions_path("orders-value"), "/subjects/orders-value/versions");
    assert_eq!(subjects_path(), "/subjects");
    assert_eq!(subject_path("orders-value"), "/subjects/orders-value");
}

#[test]
fn publish_request_carries_the_schema_as_json() {
    let request = publish_request("orders-value", "{\"type\": \"string\"}");
    assert_eq!(request.path, "/subjects/orders-value/versions");
    assert_eq!(request.body, "{\"schema\":\"{\\\"type\\\": \\\"string\\\"}\"}");
    assert_eq!(publish_request("s", "").body, "{\"schema\":\"\"}");
    assert_eq!(publish_request("s", "a\nb").body, "{\"schema\":\"a\\nb\"}");
}

#[test]
fn api_error_prefers_the_words_of_the_registry() {
    let e = api_error(
        404,
        Some(ErrorResponse {
            error_code: 40403,
            message: "Schema not found".to_string(),
        }),
    );
    assert!(matches!(e, UnhandledError::Api { code: 40403, ref message } if message == "Schema not found"));
    let e = api_error(502, None);
    assert!(
        matches!(e, UnhandledError::Api { code: 502, ref message } if message == "unable to decode error details")
    );
}

#[test]
fn get_by_id_errors() {
    assert!(matches!(GetByIdError::from(api(40403, "x")), GetByIdError::SchemaNotFound));
    assert!(
        matches!(GetByIdError::from(api(40401, "x")), GetByIdError::Server { code: 40401, ref message } if message == "x")
    );
    assert_eq!(GetByIdError::from(api(40403, "x")).to_string(), "schema not found");
    assert_eq!(
        GetByIdError::from(api(500, "boom")).to_string(),
        "server error 500: boom"
    );
}

#[test]
fn get_by_subject_errors() {
    assert!(matches!(
        GetBySubjectError::from(api(40401, "x")),
        GetBySubjectError::SubjectNotFound
    ));
    assert!(matches!(
        GetBySubjectError::from(api(40403, "x")),
        GetBySubjectError::Server { code: 40403, .. }
    ));
    assert_eq!(
        GetBySubjectError::from(api(40401, "x")).to_string(),
        "subject not found"
    );
    assert_eq!(
        GetBySubjectError::from(api(-1, "")).to_string(),
        "server error -1: "
    );
}

#[test]
fn publish_errors() {
    assert!(matches!(PublishError::from(api(409, "x")), PublishError::IncompatibleSchema));
    assert!(matches!(PublishError::from(api(42201, "x")), PublishError::InvalidSchema));
    assert!(matches!(
        PublishError::from(api(40401, "x")),
        PublishError::Server { code: 40401, .. }
    ));
    assert_eq!(
        PublishError::from(api(409, "x")).to_string(),
        "schema being registered is incompatible with an earlier schema"
    );
    assert_eq!(
        PublishError::from(api(42201, "x")).to_string(),
        "input schema is an invalid avro schema"
    );
    assert_eq!(
        PublishError::from(api(42202, "bad")).to_string(),
        "server error 42202: bad"
    );
}

#[test]
fn list_and_delete_errors() {
    assert!(matches!(ListError::from(api(40401, "x")), ListError::Server { code: 40401, .. }));
    assert_eq!(ListError::from(api(1, "a")).to_string(), "server error 1: a");
    assert!(matches!(DeleteError::from(api(40401, "x")), DeleteError::SubjectNotFound));
    assert!(matches!(
        DeleteError::from(api(409, "x")),
        DeleteError::Server { code: 409, .. }
    ));
    assert_eq!(DeleteError::from(api(40401, "x")).to_string(), "subject not found");
    assert_eq!(DeleteError::from(api(7, "no")).to_string(), "server error 7: no");
}

#[test]
fn certificates_are_checked_and_kept_in_der() {
    let from_der = Certificate::from_der(&CERT_DER).unwrap();
    assert_eq!(from_der.der().as_slice(), &CERT_DER[..]);
    let from_pem = Certificate::from_pem(CERT_PEM.as_bytes()).unwrap();
    assert_eq!(from_pem.der().as_slice(), &CERT_DER[..]);
    assert!(Certificate::from_der(b"no certificate").is_err());
    assert!(Certificate::from_pem(b"no certificate").is_err());
    assert!(Certificate::from_der(CERT_PEM.as_bytes()).is_err());
}

#[test]
fn identities_are_checked_against_their_password() {
    let identity = Identity::from_pkcs12_der(IDENTITY_P12.to_vec(), "secret".to_string()).unwrap();
    assert_eq!(identity.der().as_slice(), &IDENTITY_P12[..]);
    assert_eq!(identity.password(), "secret");
    assert!(Identity::from_pkcs12_der(IDENTITY_P12.to_vec(), "wrong".to_string()).is_err());
    assert!(Identity::from_pkcs12_der(b"no archive".to_vec(), "secret".to_string()).is_err());
}

#[test]
fn transport_errors_keep_their_text() {
    let err = match Identity::from_pkcs12_der(b"no archive".to_vec(), String::new()) {
        Ok(_) => panic!("garbage was accepted as an identity"),
        Err(err) => err,
    };
    let detail = err.to_string();
    let unhandled = UnhandledError::from(err);
    assert!(matches!(unhandled, UnhandledError::Transport(_)));
    let e = GetByIdError::from(unhandled);
    assert!(matches!(e, GetByIdError::Transport(_)));
    assert_eq!(e.to_string(), format!("transport: {}", detail));
}

#[test]
fn client_config_is_built_up() {
    let url = reqwest::Url::parse("http://localhost:8081").unwrap();
    let config = ClientConfig::new(url.clone());
    assert_eq!(config.url, url);
    assert!(config.root_certs.is_empty());
    assert!(config.identity.is_none());
    let first = Certificate::from_der(&CERT_DER).unwrap();
    let second = Certificate::from_pem(CERT_PEM.as_bytes()).unwrap();
    let identity = Identity::from_pkcs12_der(IDENTITY_P12.to_vec(), "secret".to_string()).unwrap();
    let config = config
        .add_root_certificate(first)
        .add_root_certificate(second)
        .identity(identity);
    assert_eq!(config.url, url);
    assert_eq!(config.root_certs.len(), 2);
    assert_eq!(config.root_certs[1].der().as_slice(), &CERT_DER[..]);
    assert_eq!(config.identity.unwrap().password(), "secret");
}

#[test]
fn schema_holds_id_and_text() {
    let schema = Schema {
        id: 3,
        raw: "\"string\"".to_string(),
    };
    assert_eq!(schema.id, 3);
    assert_eq!(schema.raw, "\"string\"");
}

#[test]
fn what_is_kept_follows_the_outcome_of_the_check() {
    let certificate = Certificate::checked(b"bytes", Ok(())).unwrap();
    assert_eq!(certificate.der().as_slice(), b"bytes");
    let certificate = Certificate::converted(Ok(vec![1, 2, 3])).unwrap();
    assert_eq!(certificate.der().as_slice(), &[1, 2, 3]);
    let identity = Identity::checked(vec![4, 5], "pw".to_string(), Ok(())).unwrap();
    assert_eq!(identity.der().as_slice(), &[4, 5]);
    assert_eq!(identity.password(), "pw");

    let refusal = || native_tls::Certificate::from_der(b"no certificate").err().unwrap();
    let text = refusal().to_string();
    assert_eq!(
        Certificate::checked(b"bytes", Err(refusal())).unwrap_err().to_string(),
        text
    );
    assert_eq!(
        Certificate::converted(Err(refusal())).unwrap_err().to_string(),
        text
    );
    let refusal = match Identity::from_pkcs12_der(b"no archive".to_vec(), String::new()) {
        Ok(_) => panic!("garbage was accepted as an identity"),
        Err(e) => e,
    };
    let text = refusal.to_string();
    assert_eq!(
        Identity::checked(IDENTITY_P12.to_vec(), "secret".to_string(), Err(refusal))
            .unwrap_err()
            .to_string(),
        text
    );
}
